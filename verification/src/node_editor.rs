//! The graph index: node, link and connected-set bookkeeping.
//!
//! The editor owns the identifier generator and three tables: the node
//! index (visual node id to owning entity), the link index (endpoint tuple
//! to memoized link id) and the connected set (one rendered outgoing
//! connection per source node).  Every operation is specified against the
//! editor's spec-level view, [`EditorView`].

use vstd::prelude::*;

use crate::ids::Entity;
use crate::ids::GenView;
use crate::ids::IdentifierGenerator;
use crate::ids::LinkId;
use crate::ids::NodeId;
use crate::link_context::Link;
use crate::link_context::LinkContext;
use crate::node_context::NodeContext;

verus! {

/// The link id memoized for `link`, searching `s` from position `i` on.
pub open spec fn find_link_id_from(s: Seq<LinkContext>, link: Link, i: int) -> Option<LinkId>
    decreases s.len() - i,
{
    if i < 0 || i >= s.len() {
        None
    } else if s[i].link == link {
        Some(s[i].link_id)
    } else {
        find_link_id_from(s, link, i + 1)
    }
}

/// The link id memoized for `link` in the link index `s`, if any.
pub open spec fn find_link_id(s: Seq<LinkContext>, link: Link) -> Option<LinkId> {
    find_link_id_from(s, link, 0)
}

/// The endpoint tuple recorded for `id`, searching `s` from position `i`.
pub open spec fn find_link_of_id_from(s: Seq<LinkContext>, id: LinkId, i: int) -> Option<Link>
    decreases s.len() - i,
{
    if i < 0 || i >= s.len() {
        None
    } else if s[i].link_id == id {
        Some(s[i].link)
    } else {
        find_link_of_id_from(s, id, i + 1)
    }
}

/// The endpoint tuple recorded for `id` in the link index `s`, if any.
pub open spec fn find_link_of_id(s: Seq<LinkContext>, id: LinkId) -> Option<Link> {
    find_link_of_id_from(s, id, 0)
}

/// The position of `link` in the connected set `s`, searching from `i`.
pub open spec fn find_connected_from(s: Seq<Link>, link: Link, i: int) -> Option<int>
    decreases s.len() - i,
{
    if i < 0 || i >= s.len() {
        None
    } else if s[i] == link {
        Some(i)
    } else {
        find_connected_from(s, link, i + 1)
    }
}

/// The position of `link` in the connected set `s`, if any.
pub open spec fn find_connected(s: Seq<Link>, link: Link) -> Option<int> {
    find_connected_from(s, link, 0)
}

/// The entity recorded for `id`, searching `s` from position `i`.
pub open spec fn find_entity_from(s: Seq<(NodeId, Entity)>, id: NodeId, i: int) -> Option<
    Entity,
>
    decreases s.len() - i,
{
    if i < 0 || i >= s.len() {
        None
    } else if s[i].0 == id {
        Some(s[i].1)
    } else {
        find_entity_from(s, id, i + 1)
    }
}

/// The entity recorded for `id` in the node index `s`, if any.
pub open spec fn find_entity(s: Seq<(NodeId, Entity)>, id: NodeId) -> Option<Entity> {
    find_entity_from(s, id, 0)
}

/// Spec-level image of a [`NodeEditor`].
#[verifier::ext_equal]
pub ghost struct EditorView {
    /// Visual node id to owning entity, in insertion order.
    pub node_index: Seq<(NodeId, Entity)>,
    /// Endpoint tuple to memoized link id, in insertion order.
    pub link_index: Seq<LinkContext>,
    /// Endpoint tuples currently rendered, at most one per source node.
    pub connected: Seq<Link>,
    /// State of the identifier generator.
    pub gen: GenView,
}

impl EditorView {
    /// Well-formedness of the editor state.
    ///
    /// Node ids in the node index are pairwise distinct and were issued by
    /// the generator; link keys and link ids in the link index likewise;
    /// the connected set holds at most one tuple per source node, and only
    /// tuples the link index knows.
    pub open spec fn wf(self) -> bool {
        &&& forall|i: int, j: int|
            0 <= i < j < self.node_index.len() ==> self.node_index[i].0 != self.node_index[j].0
        &&& forall|i: int|
            0 <= i < self.node_index.len() ==> self.node_index[i].0.0 < self.gen.next_node
        &&& forall|i: int, j: int|
            0 <= i < j < self.link_index.len() ==> self.link_index[i].link
                != self.link_index[j].link
        &&& forall|i: int, j: int|
            0 <= i < j < self.link_index.len() ==> self.link_index[i].link_id
                != self.link_index[j].link_id
        &&& forall|i: int|
            0 <= i < self.link_index.len() ==> self.link_index[i].link_id.0 < self.gen.next_link
        &&& forall|i: int, j: int|
            0 <= i < j < self.connected.len() ==> self.connected[i].start_node
                != self.connected[j].start_node
        &&& forall|i: int|
            0 <= i < self.connected.len() ==> find_link_id(self.link_index, self.connected[i])
                is Some
    }

    /// True when some source node's rendered connection blocks `link`: a
    /// different tuple with the same start node is already connected.
    pub open spec fn blocked(self, link: Link) -> bool {
        exists|i: int|
            0 <= i < self.connected.len() && self.connected[i].start_node == link.start_node
                && self.connected[i] != link
    }

    /// The editor after a node context was created for `e`, and that
    /// context: the generator's next identifiers, recorded in the node
    /// index.
    pub open spec fn add_node_spec(self, e: Entity) -> (EditorView, NodeContext) {
        let ctx = NodeContext::fresh(e, self.gen);
        (
            EditorView {
                node_index: self.node_index.push((ctx.node_id, e)),
                gen: self.gen.after_node(),
                ..self
            },
            ctx,
        )
    }

    /// The editor after a link for `link` was requested, and the outcome.
    ///
    /// A request is rejected (`None`, state unchanged) when a different
    /// tuple from the same start node is connected.  Otherwise the link id
    /// is the memoized one if the tuple was seen before, else freshly
    /// allocated and memoized; either way the tuple joins the connected
    /// set.
    pub open spec fn add_link_spec(self, link: Link) -> (EditorView, Option<LinkId>) {
        if self.blocked(link) {
            (self, None)
        } else {
            match find_link_id(self.link_index, link) {
                Some(id) => {
                    let connected = if self.connected.contains(link) {
                        self.connected
                    } else {
                        self.connected.push(link)
                    };
                    (EditorView { connected, ..self }, Some(id))
                },
                None => {
                    let id = LinkId(self.gen.next_link as u64);
                    (
                        EditorView {
                            link_index: self.link_index.push(LinkContext { link, link_id: id }),
                            connected: self.connected.push(link),
                            gen: self.gen.after_link(),
                            ..self
                        },
                        Some(id),
                    )
                },
            }
        }
    }

    /// The editor after the link with visual id `id` was dropped, and the
    /// tuple that left the connected set.
    ///
    /// An id the link index does not know, or whose tuple is not
    /// connected, leaves the editor unchanged.  The link index itself is
    /// never pruned, so a recreated tuple reuses its old id.
    pub open spec fn remove_link_spec(self, id: LinkId) -> (EditorView, Option<Link>) {
        match find_link_of_id(self.link_index, id) {
            None => (self, None),
            Some(link) => match find_connected(self.connected, link) {
                None => (self, None),
                Some(at) => (
                    EditorView { connected: self.connected.remove(at), ..self },
                    Some(link),
                ),
            },
        }
    }
}

/// A memoized link id names an entry of the index; a missing one names
/// none.
pub proof fn lemma_find_link_id_from(s: Seq<LinkContext>, link: Link, i: int)
    requires
        0 <= i <= s.len(),
    ensures
        find_link_id_from(s, link, i) is Some ==> exists|j: int|
            i <= j < s.len() && s[j] == (LinkContext {
                link,
                link_id: find_link_id_from(s, link, i)->Some_0,
            }),
        find_link_id_from(s, link, i) is None ==> forall|j: int|
            i <= j < s.len() ==> s[j].link != link,
    decreases s.len() - i,
{
    if i < s.len() && s[i].link != link {
        lemma_find_link_id_from(s, link, i + 1);
    }
}

/// Well-formedness is preserved by creating a node context.
pub proof fn lemma_add_node_wf(v: EditorView, e: Entity)
    requires
        v.wf(),
        v.gen.can_create_nodes(1),
    ensures
        v.add_node_spec(e).0.wf(),
{
}

/// Well-formedness is preserved by requesting a link.
pub proof fn lemma_add_link_wf(v: EditorView, link: Link)
    requires
        v.wf(),
        v.gen.can_create_links(1),
    ensures
        v.add_link_spec(link).0.wf(),
{
    if !v.blocked(link) {
        match find_link_id(v.link_index, link) {
            Some(id) => {
                let w = v.add_link_spec(link).0;
                if !v.connected.contains(link) {
                    assert forall|i: int|
                        0 <= i < w.connected.len() implies find_link_id(
                        w.link_index,
                        w.connected[i],
                    ) is Some by {
                        if i < v.connected.len() {
                            assert(w.connected[i] == v.connected[i]);
                        } else {
                            assert(w.connected[i] == link);
                        }
                    }
                }
            },
            None => {
                let w = v.add_link_spec(link).0;
                let id = LinkId(v.gen.next_link as u64);
                lemma_find_link_id_from(v.link_index, link, 0);
                assert forall|i: int, j: int|
                    0 <= i < j < w.link_index.len() implies w.link_index[i].link
                    != w.link_index[j].link by {
                    if j == v.link_index.len() {
                        assert(w.link_index[i] == v.link_index[i]);
                    }
                }
                assert forall|i: int|
                    0 <= i < w.connected.len() implies find_link_id(
                    w.link_index,
                    w.connected[i],
                ) is Some by {
                    if i < v.connected.len() {
                        lemma_find_extends(v.link_index, LinkContext { link, link_id: id },
                            v.connected[i]);
                    } else {
                        assert(w.connected[i] == link);
                        lemma_find_extends(v.link_index, LinkContext { link, link_id: id },
                            link);
                    }
                }
            },
        }
    }
}

/// Searching a pushed index finds at least what the shorter index found,
/// and the pushed entry's key in any case.
pub proof fn lemma_find_extends(s: Seq<LinkContext>, e: LinkContext, link: Link)
    ensures
        find_link_id(s, link) is Some ==> find_link_id(s.push(e), link) == find_link_id(s, link),
        find_link_id(s, link) is None && e.link == link ==> find_link_id(s.push(e), link)
            == Some(e.link_id),
{
    lemma_find_extends_from(s, e, link, 0);
}

proof fn lemma_find_extends_from(s: Seq<LinkContext>, e: LinkContext, link: Link, i: int)
    requires
        0 <= i <= s.len(),
    ensures
        find_link_id_from(s, link, i) is Some ==> find_link_id_from(s.push(e), link, i)
            == find_link_id_from(s, link, i),
        find_link_id_from(s, link, i) is None && e.link == link ==> find_link_id_from(
            s.push(e),
            link,
            i,
        ) == Some(e.link_id),
        find_link_id_from(s, link, i) is None && e.link != link ==> find_link_id_from(
            s.push(e),
            link,
            i,
        ) is None,
    decreases s.len() - i,
{
    if i < s.len() {
        assert(s.push(e)[i] == s[i]);
        if s[i].link != link {
            lemma_find_extends_from(s, e, link, i + 1);
        }
    } else {
        assert(s.push(e)[i] == e);
        assert(find_link_id_from(s.push(e), link, i + 1) is None);
    }
}

/// Well-formedness is preserved by dropping a link.
pub proof fn lemma_remove_link_wf(v: EditorView, id: LinkId)
    requires
        v.wf(),
    ensures
        v.remove_link_spec(id).0.wf(),
{
    match find_link_of_id(v.link_index, id) {
        None => {},
        Some(link) => match find_connected(v.connected, link) {
            None => {},
            Some(at) => {
                lemma_find_connected_range(v.connected, link, 0);
                let w = v.remove_link_spec(id).0;
                assert forall|i: int, j: int|
                    0 <= i < j < w.connected.len() implies w.connected[i].start_node
                    != w.connected[j].start_node by {
                    assert(w.connected[i] == if i < at {
                        v.connected[i]
                    } else {
                        v.connected[i + 1]
                    });
                    assert(w.connected[j] == if j < at {
                        v.connected[j]
                    } else {
                        v.connected[j + 1]
                    });
                }
                assert forall|i: int|
                    0 <= i < w.connected.len() implies find_link_id(
                    w.link_index,
                    w.connected[i],
                ) is Some by {
                    assert(w.connected[i] == if i < at {
                        v.connected[i]
                    } else {
                        v.connected[i + 1]
                    });
                }
            },
        },
    }
}

/// A found position lies in range and holds the sought tuple.
pub proof fn lemma_find_connected_range(s: Seq<Link>, link: Link, i: int)
    requires
        0 <= i <= s.len(),
    ensures
        find_connected_from(s, link, i) matches Some(at) ==> i <= at < s.len() && s[at] == link,
        find_connected_from(s, link, i) is None ==> forall|j: int|
            i <= j < s.len() ==> s[j] != link,
    decreases s.len() - i,
{
    if i < s.len() && s[i] != link {
        lemma_find_connected_range(s, link, i + 1);
    }
}

/// Node editor state: the identifier generator and the graph index.
pub struct NodeEditor {
    node_index: Vec<(NodeId, Entity)>,
    link_index: Vec<LinkContext>,
    connected: Vec<Link>,
    idgen: IdentifierGenerator,
}

impl View for NodeEditor {
    type V = EditorView;

    closed spec fn view(&self) -> EditorView {
        EditorView {
            node_index: self.node_index@,
            link_index: self.link_index@,
            connected: self.connected@,
            gen: self.idgen@,
        }
    }
}

impl NodeEditor {
    /// Creates a new node editor around an identifier generator.
    pub fn new(idgen: IdentifierGenerator) -> (r: Self)
        ensures
            r@ == (EditorView {
                node_index: Seq::empty(),
                link_index: Seq::empty(),
                connected: Seq::empty(),
                gen: idgen@,
            }),
            r@.wf(),
    {
        NodeEditor { node_index: Vec::new(), link_index: Vec::new(), connected: Vec::new(), idgen }
    }

    /// Returns an immutable reference to the node index.
    pub fn node_index(&self) -> (r: &Vec<(NodeId, Entity)>)
        ensures
            r@ == self@.node_index,
    {
        &self.node_index
    }

    /// Returns a mutable reference to the node index.
    ///
    /// A caller that alters the index is responsible for keeping the
    /// editor well-formed; every other operation requires that.
    pub fn node_index_mut(&mut self) -> (r: &mut Vec<(NodeId, Entity)>)
        ensures
            (*r)@ == old(self)@.node_index,
            final(self)@ == (EditorView { node_index: (*final(r))@, ..old(self)@ }),
    {
        &mut self.node_index
    }

    /// Returns the entity that the visual node `id` represents, if any.
    pub fn lookup_entity(&self, id: NodeId) -> (r: Option<Entity>)
        ensures
            r == find_entity(self@.node_index, id),
    {
        let n = self.node_index.len();
        let mut i: usize = 0;
        let mut found: Option<Entity> = None;
        while i < n && found.is_none()
            invariant
                i <= n,
                n == self.node_index.len(),
                match found {
                    None => find_entity(self@.node_index, id) == find_entity_from(
                        self@.node_index,
                        id,
                        i as int,
                    ),
                    Some(e) => find_entity(self@.node_index, id) == Some(e),
                },
            decreases n - i,
        {
            let entry = self.node_index[i];
            if entry.0 == id {
                found = Some(entry.1);
            }
            i = i + 1;
        }
        found
    }

    /// Adds a new node to represent the entity, allocating its visual
    /// identifiers and recording the node id in the node index.
    ///
    /// Returns the node context created.
    pub fn add_node(&mut self, node: Entity) -> (r: NodeContext)
        requires
            old(self)@.wf(),
            old(self)@.gen.can_create_nodes(1),
        ensures
            final(self)@.wf(),
            final(self)@ == old(self)@.add_node_spec(node).0,
            r == old(self)@.add_node_spec(node).1,
    {
        proof {
            lemma_add_node_wf(old(self)@, node);
        }
        let context = NodeContext::new(node, &mut self.idgen);
        self.node_index.push((context.node_id(), node));
        context
    }

    /// Requests a link for the endpoint tuple `link`.
    ///
    /// Returns the memoized or freshly allocated link id, or `None` when
    /// the start node already has a different rendered connection (the
    /// single-outgoing-connection policy; the editor is then unchanged).
    #[verifier::loop_isolation(false)]
    pub fn add_link(&mut self, link: Link) -> (r: Option<LinkId>)
        requires
            old(self)@.wf(),
            old(self)@.gen.can_create_links(1),
        ensures
            final(self)@.wf(),
            final(self)@ == old(self)@.add_link_spec(link).0,
            r == old(self)@.add_link_spec(link).1,
    {
        proof {
            lemma_add_link_wf(old(self)@, link);
        }
        let n = self.connected.len();
        let mut i: usize = 0;
        let mut already_connected = false;
        let mut same_start_other = false;
        while i < n
            invariant
                i <= n,
                already_connected == exists|j: int| 0 <= j < i && self.connected@[j] == link,
                same_start_other == exists|j: int|
                    0 <= j < i && self.connected@[j].start_node == link.start_node
                        && self.connected@[j] != link,
            decreases n - i,
        {
            let c = self.connected[i];
            if c.start_node == link.start_node {
                if c == link {
                    already_connected = true;
                } else {
                    same_start_other = true;
                }
            }
            i = i + 1;
        }
        if same_start_other {
            return None;
        }
        assert(!self@.blocked(link));
        assert(already_connected == self@.connected.contains(link));
        let m = self.link_index.len();
        let mut k: usize = 0;
        let mut found: Option<LinkId> = None;
        while k < m && found.is_none()
            invariant
                k <= m,
                match found {
                    None => find_link_id(self@.link_index, link) == find_link_id_from(
                        self@.link_index,
                        link,
                        k as int,
                    ),
                    Some(id) => find_link_id(self@.link_index, link) == Some(id),
                },
            decreases m - k,
        {
            let lc = self.link_index[k];
            if lc.link == link {
                found = Some(lc.link_id);
            }
            k = k + 1;
        }
        match found {
            Some(id) => {
                if !already_connected {
                    self.connected.push(link);
                }
                Some(id)
            },
            None => {
                proof {
                    if already_connected {
                        let j = choose|j: int|
                            0 <= j < self@.connected.len() && self@.connected[j] == link;
                        assert(find_link_id(self@.link_index, self@.connected[j]) is Some);
                    }
                }
                let id = self.idgen.next_link();
                self.link_index.push(LinkContext { link, link_id: id });
                self.connected.push(link);
                Some(id)
            },
        }
    }

    /// Drops the link with visual id `link_id`.
    ///
    /// Its endpoint tuple leaves the connected set and is returned, so the
    /// caller can reset the source entity's cursor in the store.  An
    /// unknown or already dropped id is a silent no-op.  The link index is
    /// never pruned: a recreated tuple reuses its old id.
    #[verifier::loop_isolation(false)]
    pub fn remove_link_by_id(&mut self, link_id: LinkId) -> (r: Option<Link>)
        requires
            old(self)@.wf(),
        ensures
            final(self)@.wf(),
            final(self)@ == old(self)@.remove_link_spec(link_id).0,
            r == old(self)@.remove_link_spec(link_id).1,
    {
        proof {
            lemma_remove_link_wf(old(self)@, link_id);
        }
        let m = self.link_index.len();
        let mut k: usize = 0;
        let mut found: Option<Link> = None;
        while k < m && found.is_none()
            invariant
                k <= m,
                match found {
                    None => find_link_of_id(self@.link_index, link_id) == find_link_of_id_from(
                        self@.link_index,
                        link_id,
                        k as int,
                    ),
                    Some(l) => find_link_of_id(self@.link_index, link_id) == Some(l),
                },
            decreases m - k,
        {
            let lc = self.link_index[k];
            if lc.link_id == link_id {
                found = Some(lc.link);
            }
            k = k + 1;
        }
        match found {
            None => None,
            Some(link) => {
                let n = self.connected.len();
                let mut i: usize = 0;
                let mut at: Option<usize> = None;
                while i < n && at.is_none()
                    invariant
                        i <= n,
                        match at {
                            None => find_connected(self@.connected, link) == find_connected_from(
                                self@.connected,
                                link,
                                i as int,
                            ),
                            Some(p) => find_connected(self@.connected, link) == Some(p as int),
                        },
                        at matches Some(p) ==> p < n,
                    decreases n - i,
                {
                    if self.connected[i] == link {
                        at = Some(i);
                    }
                    i = i + 1;
                }
                match at {
                    None => None,
                    Some(p) => {
                        self.connected.remove(p);
                        Some(link)
                    },
                }
            },
        }
    }
}

} // verus!
