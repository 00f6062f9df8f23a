use node_graph::ButtonLabel;
use node_graph::Entity;
use node_graph::EventPhase;
use node_graph::NodeCommand;
use node_graph::NodeEvent;
use node_graph::SingleIO;

#[test]
fn inactive_nodes_offer_start_and_pause() {
    assert_eq!(
        SingleIO::buttons_for(EventPhase::Inactive),
        vec![ButtonLabel::Start, ButtonLabel::Pause]
    );
}

#[test]
fn running_nodes_offer_cancel_and_pause() {
    assert_eq!(
        SingleIO::buttons_for(EventPhase::InProgress),
        vec![ButtonLabel::Cancel, ButtonLabel::Pause]
    );
}

#[test]
fn completed_nodes_offer_reset() {
    assert_eq!(SingleIO::buttons_for(EventPhase::Completed), vec![ButtonLabel::Reset]);
}

#[test]
fn paused_nodes_offer_resume_and_cancel() {
    assert_eq!(
        SingleIO::buttons_for(EventPhase::Paused),
        vec![ButtonLabel::Resume, ButtonLabel::Cancel]
    );
}

#[test]
fn other_phases_offer_no_buttons() {
    assert!(SingleIO::buttons_for(EventPhase::Other).is_empty());
}

#[test]
fn button_presses_dispatch_their_commands() {
    let e = Entity(42);
    let cases = [
        (ButtonLabel::Start, NodeCommand::Activate(e)),
        (ButtonLabel::Pause, NodeCommand::Pause(e)),
        (ButtonLabel::Resume, NodeCommand::Resume(e)),
        (ButtonLabel::Cancel, NodeCommand::Cancel(e)),
        (ButtonLabel::Reset, NodeCommand::Reset(e)),
    ];
    for (label, command) in cases {
        let event = NodeEvent::button_press(label, e);
        assert_eq!(SingleIO::command_for(&event), command);
        let NodeEvent::ButtonPress { name, entity } = event;
        assert_eq!(name, label);
        assert_eq!(entity, e);
    }
}
