use tank_core::editor::{
    setup_ui_editor, update_ui_editor, update_ui_editor_brush, BlockSlot, BrushLines, UISelectInfo,
};
use tank_core::geometry::Transform;

#[test]
fn panel_lists_the_levels_and_the_palette() {
    let mut selector = UISelectInfo::new();
    selector.map_editor_level_index = 1;
    selector.map_editor_block = 4;
    let panel = setup_ui_editor(3, &selector);
    assert_eq!(panel.levels, vec![false, true, false]);
    assert_eq!(panel.blocks.len(), 9);
    assert_eq!(panel.blocks[0], BlockSlot { row: 0, col: 0, index: 0, selected: false });
    assert_eq!(panel.blocks[3], BlockSlot { row: 1, col: 1, index: 3, selected: false });
    assert_eq!(panel.blocks[4], BlockSlot { row: 2, col: 0, index: 4, selected: true });
    assert_eq!(panel.blocks[8], BlockSlot { row: 4, col: 0, index: 8, selected: false });
    assert_eq!(panel.blocks.iter().filter(|b| b.selected).count(), 1);
}

#[test]
fn panel_without_levels_still_shows_the_palette() {
    let panel = setup_ui_editor(0, &UISelectInfo::new());
    assert!(panel.levels.is_empty());
    assert_eq!(panel.blocks.len(), 9);
    assert!(panel.blocks[0].selected);
}

#[test]
fn last_press_of_the_frame_selects_the_level() {
    let mut selector = UISelectInfo::new();
    let marks = update_ui_editor(&mut selector, &vec![2, 1], 4);
    assert_eq!(selector.map_editor_level_index, 1);
    assert_eq!(marks, vec![false, true, false, false]);
    let marks = update_ui_editor(&mut selector, &Vec::new(), 4);
    assert_eq!(selector.map_editor_level_index, 1);
    assert_eq!(marks, vec![false, true, false, false]);
    let marks = update_ui_editor(&mut selector, &vec![7], 4);
    assert_eq!(selector.map_editor_level_index, 7);
    assert_eq!(marks, vec![false, false, false, false]);
}

#[test]
fn cursor_over_the_area_frames_its_cell() {
    let mut selector = UISelectInfo::new();
    let lines = update_ui_editor_brush(&mut selector, &vec![Transform::new(0, 0)]);
    assert_eq!(selector.map_editor_cursor, (6, 6));
    assert!(selector.show_line);
    assert_eq!(lines, Some(BrushLines { x_start: -24, x_end: 24, y_start: 24, y_end: -24 }));
    let lines = update_ui_editor_brush(&mut selector, &vec![Transform::new(-311, 311)]);
    assert_eq!(selector.map_editor_cursor, (0, 0));
    assert_eq!(lines, Some(BrushLines { x_start: -312, x_end: -264, y_start: 312, y_end: 264 }));
    let lines = update_ui_editor_brush(&mut selector, &vec![Transform::new(311, -311)]);
    assert_eq!(selector.map_editor_cursor, (12, 12));
    assert_eq!(lines, Some(BrushLines { x_start: 264, x_end: 312, y_start: -264, y_end: -312 }));
    let lines = update_ui_editor_brush(&mut selector, &vec![Transform::new(-100, 200)]);
    assert_eq!(selector.map_editor_cursor, (2, 4));
    assert_eq!(lines, Some(BrushLines { x_start: -120, x_end: -72, y_start: 216, y_end: 168 }));
}

#[test]
fn cursor_off_the_area_shows_no_frame_and_keeps_its_cell() {
    let mut selector = UISelectInfo::new();
    update_ui_editor_brush(&mut selector, &vec![Transform::new(100, 100)]);
    let cell = selector.map_editor_cursor;
    for off in [
        Transform::new(312, 0),
        Transform::new(-312, 0),
        Transform::new(0, 312),
        Transform::new(0, -312),
        Transform::new(5000, -5000),
    ] {
        let lines = update_ui_editor_brush(&mut selector, &vec![Transform::new(100, 100), off]);
        assert_eq!(lines, None);
        assert!(!selector.show_line);
        assert_eq!(selector.map_editor_cursor, cell);
    }
}

#[test]
fn without_a_move_the_frame_stays_as_it_was() {
    let mut selector = UISelectInfo::new();
    assert_eq!(update_ui_editor_brush(&mut selector, &Vec::new()), None);
    update_ui_editor_brush(&mut selector, &vec![Transform::new(-300, -300)]);
    let again = update_ui_editor_brush(&mut selector, &Vec::new());
    assert_eq!(selector.map_editor_cursor, (12, 0));
    assert_eq!(again, Some(BrushLines { x_start: -312, x_end: -264, y_start: -264, y_end: -312 }));
}

#[test]
fn selection_validity_follows_the_cursor_cell() {
    let mut selector = UISelectInfo::new();
    assert!(selector.is_wf());
    selector.map_editor_cursor = (13, 0);
    assert!(!selector.is_wf());
    selector.map_editor_cursor = (12, 12);
    assert!(selector.is_wf());
}
