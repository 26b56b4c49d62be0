use elastic_box::{
    calculate_box_size, calculate_child_translation, midpoint, reorder_child_transforms,
    resolve_index, slot_index, DragEnter, DragLeave, DragSession, ElementId, ReorderChildren,
    Resize, Size,
};

const PADDING: u64 = 35;
const CARD: Size = Size { x: 100, y: 160 };

#[test]
fn box_size_for_three_cards() {
    let size = calculate_box_size(3, &CARD, PADDING);
    assert_eq!(size, Size { x: 440, y: 230 });
}

#[test]
fn box_size_for_no_cards_is_padding() {
    let size = calculate_box_size(0, &CARD, PADDING);
    assert_eq!(size.x, 35);
}

#[test]
fn box_width_strictly_increasing() {
    let mut last = calculate_box_size(0, &CARD, PADDING).x;
    for n in 1..20usize {
        let w = calculate_box_size(n, &CARD, PADDING).x;
        assert!(w > last);
        last = w;
    }
}

#[test]
fn slots_evenly_spaced_and_increasing() {
    let xs: Vec<i64> = (0..4).map(|i| calculate_child_translation(4, i, &CARD, PADDING)).collect();
    assert_eq!(xs, vec![-252, -117, 18, 153]);
    for w in xs.windows(2) {
        assert_eq!(w[1] - w[0], 135);
    }
}

#[test]
fn slot_offset_of_three_cards() {
    assert_eq!(calculate_child_translation(3, 0, &CARD, PADDING), -185);
    assert_eq!(calculate_child_translation(3, 1, &CARD, PADDING), -50);
    assert_eq!(calculate_child_translation(3, 2, &CARD, PADDING), 85);
    assert_eq!(calculate_child_translation(3, 3, &CARD, PADDING), 220);
}

#[test]
fn slot_offset_rounds_half_width_down() {
    let card = Size { x: 10, y: 10 };
    // width 2 * 11 + 1 = 23, half rounded down to 11
    assert_eq!(calculate_child_translation(2, 0, &card, 1), 1 - 11);
}

#[test]
fn resolve_index_boundaries() {
    // midpoints 10, 50, 90 in tenths of a unit
    let mids = vec![100i64, 500, 900];
    assert_eq!(resolve_index(&mids, 100), 1);
    assert_eq!(resolve_index(&mids, 99), 0);
    assert_eq!(resolve_index(&mids, 2000), 3);
    assert_eq!(resolve_index(&mids, 500), 2);
    assert_eq!(resolve_index(&vec![], 7), 0);
}

#[test]
fn resolve_index_is_stable() {
    let mids = vec![-135i64, 0, 135];
    let first = resolve_index(&mids, -20);
    let second = resolve_index(&mids, -20);
    assert_eq!(first, 1);
    assert_eq!(first, second);
}

#[test]
fn midpoint_of_card() {
    assert_eq!(midpoint(Some(-185), 100), -135);
    assert_eq!(midpoint(None, 100), 0);
}

#[test]
fn slot_index_rules() {
    assert_eq!(slot_index(0, None), 0);
    assert_eq!(slot_index(2, None), 2);
    assert_eq!(slot_index(0, Some(1)), 0);
    assert_eq!(slot_index(1, Some(1)), 2);
    assert_eq!(slot_index(2, Some(1)), 3);
}

#[test]
fn reflow_provisional_insert_at_one() {
    let mut offsets = vec![0i64; 3];
    reorder_child_transforms(&mut offsets, Some(1), &CARD, PADDING);
    let four: Vec<i64> = (0..4).map(|i| calculate_child_translation(4, i, &CARD, PADDING)).collect();
    assert_eq!(offsets, vec![four[0], four[2], four[3]]);
    assert_eq!(offsets, vec![-252, 18, 153]);
}

#[test]
fn reflow_settle_restores_natural_layout() {
    let mut offsets = vec![7i64, -3, 1000];
    for k in [0usize, 3, 1, 2, 1] {
        reorder_child_transforms(&mut offsets, Some(k), &CARD, PADDING);
    }
    reorder_child_transforms(&mut offsets, None, &CARD, PADDING);
    assert_eq!(offsets, vec![-185, -50, 85]);
}

#[test]
fn reflow_is_idempotent() {
    let mut once = vec![0i64; 3];
    reorder_child_transforms(&mut once, Some(2), &CARD, PADDING);
    let mut twice = once.clone();
    reorder_child_transforms(&mut twice, Some(2), &CARD, PADDING);
    assert_eq!(once, twice);
}

#[test]
fn reflow_empty_container() {
    let mut offsets: Vec<i64> = Vec::new();
    reorder_child_transforms(&mut offsets, Some(0), &CARD, PADDING);
    assert!(offsets.is_empty());
}

fn three_cards(c: ElementId) -> DragEnter {
    DragEnter { container: c, child_world_x: vec![Some(-185), Some(-50), Some(85)] }
}

#[test]
fn enter_captures_midpoints_and_grows_box() {
    let c = ElementId(1);
    let mut session = DragSession::new();
    let resize = session.drag_enter(&three_cards(c), &CARD, PADDING);
    assert_eq!(resize, Resize { container: c, size: Size { x: 575, y: 230 } });
    assert_eq!(session.active(), Some(c));
    assert_eq!(session.midpoints(), &vec![-135, 0, 135]);
    assert_eq!(session.last_index(), 3);
}

#[test]
fn enter_with_missing_position_uses_zero() {
    let c = ElementId(1);
    let mut session = DragSession::new();
    let event = DragEnter { container: c, child_world_x: vec![Some(-185), None] };
    session.drag_enter(&event, &CARD, PADDING);
    assert_eq!(session.midpoints(), &vec![-135, 0]);
}

#[test]
fn move_while_idle_does_nothing() {
    let mut session = DragSession::new();
    assert_eq!(session.drag_move(Some(-150)), None);
    assert_eq!(session.active(), None);
}

#[test]
fn move_without_projection_is_skipped() {
    let c = ElementId(1);
    let mut session = DragSession::new();
    session.drag_enter(&three_cards(c), &CARD, PADDING);
    assert_eq!(session.drag_move(None), None);
    assert_eq!(session.last_index(), 3);
}

#[test]
fn move_emits_only_on_index_change() {
    let c = ElementId(1);
    let mut session = DragSession::new();
    session.drag_enter(&three_cards(c), &CARD, PADDING);
    // past the last midpoint: the same as the index taken on entering
    assert_eq!(session.drag_move(Some(500)), None);
    let first = session.drag_move(Some(-150));
    assert_eq!(first, Some(ReorderChildren { container: c, target: Some(0) }));
    assert_eq!(session.drag_move(Some(-150)), None);
    assert_eq!(session.drag_move(Some(-140)), None);
    assert_eq!(
        session.drag_move(Some(10)),
        Some(ReorderChildren { container: c, target: Some(2) })
    );
}

#[test]
fn leave_resets_session() {
    let c = ElementId(1);
    let mut session = DragSession::new();
    session.drag_enter(&three_cards(c), &CARD, PADDING);
    session.drag_move(Some(-150));
    let (resize, request) =
        session.drag_leave(&DragLeave { container: c, child_count: 3 }, &CARD, PADDING);
    assert_eq!(resize, Resize { container: c, size: Size { x: 440, y: 230 } });
    assert_eq!(request, ReorderChildren { container: c, target: None });
    assert_eq!(session.active(), None);
    assert!(session.midpoints().is_empty());
    assert_eq!(session.drag_move(Some(-150)), None);
}

#[test]
fn end_to_end_drag_over_container() {
    let c = ElementId(9);
    let mut session = DragSession::new();
    assert_eq!(calculate_box_size(3, &CARD, PADDING).x, 440);

    let out = session.adjust_container(&vec![three_cards(c)], &vec![], &vec![], &CARD, PADDING);
    assert_eq!(out.resizes, vec![Resize { container: c, size: Size { x: 575, y: 230 } }]);
    assert!(out.requests.is_empty());

    let out = session.adjust_container(
        &vec![],
        &vec![],
        &vec![Some(-150), Some(-150), Some(-160)],
        &CARD,
        PADDING,
    );
    assert!(out.resizes.is_empty());
    assert_eq!(out.requests, vec![ReorderChildren { container: c, target: Some(0) }]);

    let mut offsets = vec![-185i64, -50, 85];
    reorder_child_transforms(&mut offsets, out.requests[0].target, &CARD, PADDING);
    assert_eq!(offsets, vec![-117, 18, 153]);

    let out = session.adjust_container(
        &vec![],
        &vec![DragLeave { container: c, child_count: 3 }],
        &vec![Some(-150)],
        &CARD,
        PADDING,
    );
    assert_eq!(out.resizes, vec![Resize { container: c, size: Size { x: 440, y: 230 } }]);
    assert_eq!(out.requests, vec![ReorderChildren { container: c, target: None }]);
    reorder_child_transforms(&mut offsets, out.requests[0].target, &CARD, PADDING);
    assert_eq!(offsets, vec![-185, -50, 85]);
}

#[test]
fn tick_orders_enter_leave_move() {
    let c = ElementId(4);
    let mut session = DragSession::new();
    // a leave in the same tick as the enter wins over the moves after it
    let out = session.adjust_container(
        &vec![three_cards(c)],
        &vec![DragLeave { container: c, child_count: 3 }],
        &vec![Some(-150)],
        &CARD,
        PADDING,
    );
    assert_eq!(
        out.resizes,
        vec![
            Resize { container: c, size: Size { x: 575, y: 230 } },
            Resize { container: c, size: Size { x: 440, y: 230 } },
        ]
    );
    assert_eq!(out.requests, vec![ReorderChildren { container: c, target: None }]);
    assert_eq!(session.active(), None);
}
