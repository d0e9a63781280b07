use object_search::placement::{
    begin_placement, placement_context, LayerFrame, PlacementOutcome, PlacementPlanner,
};

fn focused(layer: i32, frame_start: i32, frame_end: i32) -> Option<LayerFrame> {
    Some(LayerFrame {
        layer,
        frame_start,
        frame_end,
    })
}

#[test]
fn context_defaults_without_a_focused_object() {
    let ctx = placement_context(None);
    assert_eq!(ctx.layer, 0);
    assert_eq!(ctx.frame_start, 0);
    assert_eq!(ctx.frame_end, 60);
}

#[test]
fn context_takes_the_focused_object() {
    let ctx = placement_context(focused(3, 10, 40));
    assert_eq!(ctx.layer, 3);
    assert_eq!(ctx.frame_start, 10);
    assert_eq!(ctx.frame_end, 40);
}

#[test]
fn placement_exhaustion_attempts_exactly_ten_layers() {
    let mut planner = begin_placement("Glow".to_string(), focused(3, 10, 40)).unwrap();
    let mut tried_layers = Vec::new();
    while let Some(req) = planner.next_request() {
        tried_layers.push(req.layer);
        assert_eq!(req.effect_identifier, "Glow");
        assert_eq!(req.frame_start, 10);
        assert_eq!(req.frame_end, 40);
        planner.note_conflict();
    }
    assert_eq!(tried_layers, vec![3, 4, 5, 6, 7, 8, 9, 10, 11, 12]);
    assert_eq!(
        planner.outcome(),
        Some(PlacementOutcome::Failed {
            attempts_exhausted: true
        })
    );
    // Terminal: no further request is ever proposed.
    assert!(planner.next_request().is_none());
}

#[test]
fn placement_success_on_retry_keeps_the_frame_window() {
    let mut planner = begin_placement("Glow".to_string(), focused(3, 10, 40)).unwrap();

    let first = planner.next_request().unwrap();
    assert_eq!(first.layer, 3);
    assert_eq!(first.frame_start, 10);
    assert_eq!(first.frame_end, 40);
    planner.note_conflict();

    let second = planner.next_request().unwrap();
    assert_eq!(second.layer, 4);
    assert_eq!(second.frame_start, 10);
    assert_eq!(second.frame_end, 40);
    planner.note_success();

    assert_eq!(planner.outcome(), Some(PlacementOutcome::Placed { layer: 4 }));
    assert!(planner.next_request().is_none());
}

#[test]
fn immediate_success_places_on_the_starting_layer() {
    let mut planner = PlacementPlanner::new("Fade".to_string(), placement_context(None));
    let req = planner.next_request().unwrap();
    assert_eq!(req.layer, 0);
    planner.note_success();
    assert_eq!(planner.outcome(), Some(PlacementOutcome::Placed { layer: 0 }));
}

#[test]
fn starting_layer_too_high_for_the_retry_window_is_refused() {
    let planner = begin_placement("X".to_string(), focused(i32::MAX - 5, 0, 60));
    assert!(planner.is_none());
    let planner = begin_placement("X".to_string(), focused(i32::MAX - 10, 0, 60));
    assert!(planner.is_some());
}
