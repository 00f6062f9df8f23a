use node_graph::DomainNode;
use node_graph::Entity;
use node_graph::EventPhase;
use node_graph::IdentifierGenerator;
use node_graph::LinkId;
use node_graph::NodeEditor;
use node_graph::NodeId;
use node_graph::NodeStatus;
use node_graph::Nodes;

fn fresh_nodes() -> Nodes {
    Nodes::new(NodeEditor::new(IdentifierGenerator::new()))
}

fn eligible(id: u64) -> DomainNode {
    DomainNode {
        entity: Entity(id),
        status: NodeStatus::Event(EventPhase::Inactive),
        is_adhoc: false,
        is_spawned: false,
        connections: Vec::new(),
    }
}

fn carrier(id: u64, connections: Vec<(Entity, Entity)>) -> DomainNode {
    DomainNode {
        entity: Entity(id),
        status: NodeStatus::Other,
        is_adhoc: false,
        is_spawned: false,
        connections,
    }
}

#[test]
fn get_or_create_is_idempotent() {
    let mut nodes = fresh_nodes();
    let first = nodes.get_or_create_node(Entity(7), 3);
    let second = nodes.get_or_create_node(Entity(7), 9);
    assert_eq!(first, second);
    assert_eq!(first.entity, Entity(7));
    assert_eq!(first.col, 3);
    assert_eq!(first.row, 0);
    // A later entity picks up the very next identifiers: nothing was
    // allocated by the repeated call.
    let third = nodes.get_or_create_node(Entity(8), 4);
    assert_eq!(third.node_id.0, first.node_id.0 + 1);
    assert_eq!(third.input_pin_id.0, first.input_pin_id.0 + 1);
    assert_eq!(third.output_pin_id.0, first.output_pin_id.0 + 1);
    assert_eq!(third.attribute_id.0, first.attribute_id.0 + 1);
}

#[test]
fn identifiers_are_pairwise_distinct() {
    let mut nodes = fresh_nodes();
    let mut contexts = Vec::new();
    for id in 0..5u64 {
        contexts.push(nodes.get_or_create_node(Entity(id), id as usize + 1));
    }
    for i in 0..contexts.len() {
        for j in 0..contexts.len() {
            if i != j {
                assert_ne!(contexts[i].node_id, contexts[j].node_id);
                assert_ne!(contexts[i].input_pin_id, contexts[j].input_pin_id);
                assert_ne!(contexts[i].output_pin_id, contexts[j].output_pin_id);
                assert_ne!(contexts[i].attribute_id, contexts[j].attribute_id);
            }
        }
    }
}

#[test]
fn link_requests_are_deduplicated() {
    let mut nodes = fresh_nodes();
    let a = nodes.get_or_create_node(Entity(1), 1);
    let b = nodes.get_or_create_node(Entity(2), 2);
    let c = nodes.get_or_create_node(Entity(3), 3);
    let mut editor = NodeEditor::new(IdentifierGenerator::new());
    let ab = a.link(&b, false);
    let cb = c.link(&b, false);
    let id1 = editor.add_link(ab).expect("first request is accepted");
    let id2 = editor.add_link(ab).expect("repeated request is accepted");
    assert_eq!(id1, id2);
    let id3 = editor.add_link(cb).expect("other source is accepted");
    assert_ne!(id1, id3);
}

#[test]
fn second_outgoing_connection_is_rejected() {
    let mut nodes = fresh_nodes();
    let s = nodes.get_or_create_node(Entity(1), 1);
    let a = nodes.get_or_create_node(Entity(2), 2);
    let b = nodes.get_or_create_node(Entity(3), 3);
    let mut editor = NodeEditor::new(IdentifierGenerator::new());
    let sa = s.link(&a, false);
    let sb = s.link(&b, false);
    let first = editor.add_link(sa);
    assert!(first.is_some());
    // The same source may not fan out to a second target.
    assert_eq!(editor.add_link(sb), None);
    // The rejection memoized nothing: after dropping the first link the
    // second tuple gets a fresh id, not a cached one.
    let removed = editor.remove_link_by_id(first.unwrap());
    assert_eq!(removed, Some(sa));
    let second = editor.add_link(sb).expect("source is free again");
    assert_ne!(Some(second), first);
}

#[test]
fn removed_tuple_reuses_its_old_id() {
    let mut nodes = fresh_nodes();
    let s = nodes.get_or_create_node(Entity(1), 1);
    let a = nodes.get_or_create_node(Entity(2), 2);
    let mut editor = NodeEditor::new(IdentifierGenerator::new());
    let sa = s.link(&a, false);
    let id1 = editor.add_link(sa).unwrap();
    assert_eq!(editor.remove_link_by_id(id1), Some(sa));
    // The link index is never pruned: the recreated tuple keeps its id.
    let id2 = editor.add_link(sa).unwrap();
    assert_eq!(id1, id2);
}

#[test]
fn unknown_removal_is_a_noop() {
    let mut nodes = fresh_nodes();
    let s = nodes.get_or_create_node(Entity(1), 1);
    let a = nodes.get_or_create_node(Entity(2), 2);
    let b = nodes.get_or_create_node(Entity(3), 3);
    let mut editor = NodeEditor::new(IdentifierGenerator::new());
    let sa = s.link(&a, false);
    editor.add_link(sa).unwrap();
    assert_eq!(editor.remove_link_by_id(LinkId(999)), None);
    // The connected set was not altered: the source is still occupied.
    assert_eq!(editor.add_link(s.link(&b, false)), None);
    // Removing the same link twice: the second removal is a no-op too.
    let id = editor.add_link(sa).unwrap();
    assert_eq!(editor.remove_link_by_id(id), Some(sa));
    assert_eq!(editor.remove_link_by_id(id), None);
}

#[test]
fn scan_of_empty_domain_is_empty() {
    let mut nodes = fresh_nodes();
    let (scanned, links) = nodes.scan_nodes(&Vec::new());
    assert!(scanned.is_empty());
    assert!(links.is_empty());
}

#[test]
fn scan_assigns_columns_from_enumeration_order() {
    let mut nodes = fresh_nodes();
    let domain = vec![eligible(10), eligible(11), eligible(12)];
    let (scanned, links) = nodes.scan_nodes(&domain);
    assert_eq!(scanned.len(), 3);
    assert!(links.is_empty());
    for (k, (ctx, pos)) in scanned.iter().enumerate() {
        assert_eq!(*pos, k);
        assert_eq!(ctx.col, k + 1);
        assert_eq!(ctx.row, 0);
        assert_eq!(ctx.entity, domain[k].entity);
    }
}

#[test]
fn rescans_keep_rows_and_columns() {
    let mut nodes = fresh_nodes();
    let mut with_conn = eligible(1);
    with_conn.connections = vec![(Entity(1), Entity(2))];
    let domain = vec![with_conn, eligible(2), eligible(3)];
    nodes.scan_nodes(&domain);
    let snapshot =
        |nodes: &Nodes| -> Vec<(usize, usize)> {
            [1u64, 2, 3]
                .iter()
                .map(|id| {
                    let c = nodes.lookup_node(Entity(*id)).expect("stored");
                    (c.row, c.col)
                })
                .collect()
        };
    nodes.scan_nodes(&domain);
    let second = snapshot(&nodes);
    nodes.scan_nodes(&domain);
    let third = snapshot(&nodes);
    assert_eq!(second, third);
    // Columns never move on rediscovery.
    assert_eq!(second[0].1, 1);
    assert_eq!(second[1].1, 2);
    assert_eq!(second[2].1, 3);
}

#[test]
fn scan_output_is_stable_between_cycles() {
    let mut nodes = fresh_nodes();
    let mut first = eligible(1);
    first.connections = vec![(Entity(1), Entity(2))];
    let domain = vec![first, eligible(2)];
    nodes.scan_nodes(&domain);
    let (nodes2, links2) = nodes.scan_nodes(&domain);
    let (nodes3, links3) = nodes.scan_nodes(&domain);
    assert_eq!(nodes2, nodes3);
    assert_eq!(links2, links3);
    assert_eq!(links2.len(), 1);
}

#[test]
fn ineligible_nodes_never_get_contexts() {
    let mut nodes = fresh_nodes();
    let mut adhoc = eligible(1);
    adhoc.is_adhoc = true;
    let mut spawned = eligible(2);
    spawned.is_spawned = true;
    let plain = carrier(3, Vec::new());
    let domain = vec![adhoc, spawned, plain, eligible(4)];
    nodes.scan_nodes(&domain);
    nodes.scan_nodes(&domain);
    assert!(nodes.lookup_node(Entity(1)).is_none());
    assert!(nodes.lookup_node(Entity(2)).is_none());
    assert!(nodes.lookup_node(Entity(3)).is_none());
    assert!(nodes.lookup_node(Entity(4)).is_some());
}

#[test]
fn dangling_connection_is_skipped_then_picked_up_once() {
    let mut nodes = fresh_nodes();
    // The carrier fans out to an entity that has no context yet.
    let cycle1 = vec![carrier(9, vec![(Entity(1), Entity(2))]), eligible(1)];
    let (_, links1) = nodes.scan_nodes(&cycle1);
    assert!(links1.is_empty());
    // Once the target becomes eligible the link appears, exactly once.
    let cycle2 = vec![carrier(9, vec![(Entity(1), Entity(2))]), eligible(1), eligible(2)];
    let (_, links2) = nodes.scan_nodes(&cycle2);
    assert!(links2.is_empty(), "target was created after the carrier ran");
    let (_, links3) = nodes.scan_nodes(&cycle2);
    assert_eq!(links3.len(), 1);
    let (_, links4) = nodes.scan_nodes(&cycle2);
    assert_eq!(links4.len(), 1);
    assert_eq!(links3[0].link_id, links4[0].link_id);
}

#[test]
fn connection_rows_follow_pair_order() {
    let mut nodes = fresh_nodes();
    // Pairs 0 and 1 dangle forever; pair 2 connects two real nodes.
    let pairs = vec![
        (Entity(100), Entity(100)),
        (Entity(101), Entity(101)),
        (Entity(1), Entity(2)),
    ];
    let domain = vec![eligible(1), eligible(2), carrier(9, pairs)];
    nodes.scan_nodes(&domain);
    let source = nodes.lookup_node(Entity(1)).unwrap();
    assert_eq!(source.row, 2);
    assert_eq!(source.col, 1);
}

#[test]
fn self_connection_is_allowed() {
    let mut nodes = fresh_nodes();
    let mut looped = eligible(5);
    looped.connections = vec![(Entity(5), Entity(5))];
    let domain = vec![looped];
    let (_, links) = nodes.scan_nodes(&domain);
    assert_eq!(links.len(), 1);
    let ctx = nodes.lookup_node(Entity(5)).unwrap();
    assert_eq!(links[0].link.start_node, ctx.node_id);
    assert_eq!(links[0].link.end_node, ctx.node_id);
}

#[test]
fn duplicate_domain_entity_reuses_its_context() {
    let mut nodes = fresh_nodes();
    let domain = vec![eligible(1), eligible(1)];
    let (scanned, _) = nodes.scan_nodes(&domain);
    assert_eq!(scanned.len(), 2);
    assert_eq!(scanned[0].0, scanned[1].0);
    assert_eq!(scanned[0].0.col, 1);
}

#[test]
fn rearrange_applies_the_grid_formula() {
    let mut nodes = fresh_nodes();
    // Third eligible node gets column 3; an outgoing pair at ordinal 2
    // gives it row 2.
    let pairs = vec![
        (Entity(100), Entity(100)),
        (Entity(101), Entity(101)),
        (Entity(3), Entity(2)),
    ];
    let domain = vec![eligible(1), eligible(2), eligible(3), carrier(9, pairs)];
    nodes.scan_nodes(&domain);
    let positions = nodes.rearrange(&domain);
    let target = nodes.lookup_node(Entity(3)).unwrap();
    assert_eq!(target.row, 2);
    assert_eq!(target.col, 3);
    let placed = positions
        .iter()
        .find(|(id, _, _)| *id == target.node_id)
        .expect("the node was placed");
    assert_eq!(placed.1, 3 * 250 - 100);
    assert_eq!(placed.2, 2 * 200 + 200);
    assert_eq!((placed.1, placed.2), (650, 600));
}

#[test]
fn rearrange_places_origin_nodes_left_of_the_offset() {
    let mut nodes = fresh_nodes();
    let domain = vec![eligible(1)];
    let positions = nodes.rearrange(&domain);
    assert_eq!(positions.len(), 1);
    // col 1, row 0: x = 150, y = 200.
    assert_eq!(positions[0].1, 150);
    assert_eq!(positions[0].2, 200);
}

#[test]
fn node_index_maps_ids_back_to_entities() {
    let mut editor = NodeEditor::new(IdentifierGenerator::new());
    let a = editor.add_node(Entity(10));
    let b = editor.add_node(Entity(20));
    assert_eq!(editor.lookup_entity(a.node_id), Some(Entity(10)));
    assert_eq!(editor.lookup_entity(b.node_id), Some(Entity(20)));
    assert_eq!(editor.lookup_entity(NodeId(99)), None::<Entity>);
    assert_eq!(editor.node_index().len(), 2);
    assert_eq!(editor.node_index()[0], (a.node_id, Entity(10)));
}
