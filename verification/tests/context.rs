use node_graph::Entity;
use node_graph::IdentifierGenerator;
use node_graph::LinkContext;
use node_graph::LinkId;
use node_graph::NodeContext;

#[test]
fn contexts_draw_sequential_identifiers() {
    let mut idgen = IdentifierGenerator::new();
    let first = NodeContext::new(Entity(1), &mut idgen);
    let second = NodeContext::new(Entity(2), &mut idgen);
    assert_eq!(first.node_id.0, 0);
    assert_eq!(first.input_pin_id.0, 0);
    assert_eq!(first.output_pin_id.0, 0);
    assert_eq!(first.attribute_id.0, 0);
    assert_eq!(second.node_id.0, 1);
    assert_eq!(second.input_pin_id.0, 1);
    assert_eq!(second.output_pin_id.0, 1);
    assert_eq!(second.attribute_id.0, 1);
    assert_eq!(first.row, 0);
    assert_eq!(first.col, 0);
}

#[test]
fn context_accessors_return_the_fields() {
    let mut idgen = IdentifierGenerator::new();
    let ctx = NodeContext::new(Entity(3), &mut idgen);
    assert_eq!(ctx.node_id(), ctx.node_id);
    assert_eq!(ctx.input_pin_id(), ctx.input_pin_id);
    assert_eq!(ctx.output_pin_id(), ctx.output_pin_id);
    assert_eq!(ctx.attribute_id(), ctx.attribute_id);
}

#[test]
fn links_run_from_output_pin_to_input_pin() {
    let mut idgen = IdentifierGenerator::new();
    let from = NodeContext::new(Entity(1), &mut idgen);
    let to = NodeContext::new(Entity(2), &mut idgen);
    let link = from.link(&to, false);
    assert_eq!(link.start_node, from.node_id);
    assert_eq!(link.end_node, to.node_id);
    assert_eq!(link.start_pin, from.output_pin_id);
    assert_eq!(link.end_pin, to.input_pin_id);
    assert!(!link.created_from_snap);
    let snapped = from.link(&to, true);
    assert!(snapped.created_from_snap);
}

#[test]
fn link_context_accessors_return_the_fields() {
    let mut idgen = IdentifierGenerator::new();
    let from = NodeContext::new(Entity(1), &mut idgen);
    let to = NodeContext::new(Entity(2), &mut idgen);
    let link = from.link(&to, false);
    let lc = LinkContext { link, link_id: LinkId(5) };
    assert_eq!(lc.link(), link);
    assert_eq!(lc.link_id(), LinkId(5));
}

#[test]
fn generator_spaces_are_independent() {
    let mut idgen = IdentifierGenerator::new();
    let a = idgen.next_link();
    let ctx = NodeContext::new(Entity(1), &mut idgen);
    let b = idgen.next_link();
    assert_eq!(a, LinkId(0));
    assert_eq!(b, LinkId(1));
    assert_eq!(ctx.node_id.0, 0);
}
