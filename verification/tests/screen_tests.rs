use rustspeak::screen_sys::{ScreenAction, ScreenSystem};

#[test]
fn first_frame_shows_pushed_screens_in_order() {
    let mut sys: ScreenSystem<u32> = ScreenSystem::new();
    sys.push_screen(1);
    sys.push_screen(2);
    let plan = sys.tick_structure(true);
    assert_eq!(
        plan.actions,
        vec![
            ScreenAction::Init(1),
            ScreenAction::Activate(1),
            ScreenAction::DeactivateCovered(1),
            ScreenAction::Init(2),
            ScreenAction::Activate(2),
        ]
    );
    assert!(!plan.center_cursor);
    assert_eq!(sys.current(), Some(2));
}

#[test]
fn nothing_changed_means_nothing_to_do() {
    let mut sys: ScreenSystem<u32> = ScreenSystem::new();
    sys.push_screen(7);
    sys.tick_structure(true);
    let plan = sys.tick_structure(false);
    assert!(plan.actions.is_empty());
    assert!(!plan.center_cursor);
}

#[test]
fn popping_tears_down_only_the_top() {
    let mut sys: ScreenSystem<u32> = ScreenSystem::new();
    sys.push_screen(1);
    sys.push_screen(2);
    sys.tick_structure(true);
    sys.pop_screen();
    let plan = sys.tick_structure(false);
    assert_eq!(plan.actions, vec![ScreenAction::Deactivate(2), ScreenAction::Deinit(2)]);
    assert!(plan.center_cursor);
    // the screen below was covered, so the next frame makes it active again
    let frame = sys.frame_plan(&[false], false, 800, 600);
    assert!(frame.activate_top);
    assert_eq!(sys.current(), Some(1));
}

#[test]
fn replace_swaps_the_top_screen() {
    let mut sys: ScreenSystem<u32> = ScreenSystem::new();
    sys.push_screen(1);
    sys.push_screen(2);
    sys.tick_structure(true);
    sys.replace_screen(3);
    let plan = sys.tick_structure(true);
    assert_eq!(
        plan.actions,
        vec![
            ScreenAction::Deactivate(2),
            ScreenAction::Deinit(2),
            ScreenAction::Init(3),
            ScreenAction::Activate(3),
        ]
    );
    assert_eq!(sys.current(), Some(3));
}

#[test]
fn pop_on_empty_stack_does_nothing() {
    let mut sys: ScreenSystem<u32> = ScreenSystem::new();
    sys.pop_screen();
    assert_eq!(sys.current(), None);
    let plan = sys.tick_structure(true);
    assert!(plan.actions.is_empty());
}

#[test]
fn closing_stops_at_first_screen_that_cannot_close() {
    let mut sys: ScreenSystem<u32> = ScreenSystem::new();
    sys.push_screen(1);
    sys.push_screen(2);
    sys.push_screen(3);
    sys.push_screen(4);
    sys.close_closable_screens(&[true, false, true, true]);
    assert_eq!(sys.current(), Some(2));
}

#[test]
fn frame_plan_first_size_is_only_recorded() {
    let mut sys: ScreenSystem<u32> = ScreenSystem::new();
    sys.push_screen(1);
    sys.push_screen(2);
    sys.tick_structure(true);
    let frame = sys.frame_plan(&[true, false], false, 800, 600);
    assert!(!frame.activate_top);
    assert!(frame.resize.is_empty());
    assert_eq!(frame.tick, vec![0, 1]);
    // same size again: nothing to lay out
    let frame = sys.frame_plan(&[true, false], false, 800, 600);
    assert!(frame.resize.is_empty());
}

#[test]
fn frame_plan_resizes_after_window_change() {
    let mut sys: ScreenSystem<u32> = ScreenSystem::new();
    sys.push_screen(1);
    sys.push_screen(2);
    sys.push_screen(3);
    sys.tick_structure(true);
    sys.frame_plan(&[false, false, false], true, 800, 600);
    // a transparent top: the screen below it is laid out again too
    let frame = sys.frame_plan(&[false, false, false], true, 1024, 768);
    assert_eq!(frame.resize, vec![1, 2]);
    assert_eq!(frame.tick, vec![2]);
    let frame = sys.frame_plan(&[true, false, false], false, 640, 480);
    assert_eq!(frame.resize, vec![0, 2]);
    assert_eq!(frame.tick, vec![0, 2]);
}

#[test]
fn empty_stack_plans_no_frame() {
    let mut sys: ScreenSystem<u32> = ScreenSystem::new();
    let frame = sys.frame_plan(&[], false, 800, 600);
    assert!(!frame.activate_top);
    assert!(frame.resize.is_empty());
    assert!(frame.tick.is_empty());
}
