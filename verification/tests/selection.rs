use hacksaw::selection::span;
use hacksaw::{
    build_frame, build_guides, closing_steps, final_result, frame_fits, guides_fit, run_events,
    Cancellation, ChildWindow, Closing, Completion, Ending, Event, Feedback, HacksawResult,
    MapState, Notice, Point, Rectangle, Selection, Step, Teardown, WindowAttributes, WindowClass,
    WindowGeometry, SETTLE_DELAY_MS,
};

const ROOT: u32 = 0x1d7;

fn press(detail: u8, x: i16, y: i16) -> Event {
    Event::ButtonPress { detail, x, y }
}

fn release(detail: u8) -> Event {
    Event::ButtonRelease { detail }
}

fn motion(x: i16, y: i16) -> Event {
    Event::MotionNotify { x, y }
}

fn rect(x: i16, y: i16, width: u16, height: u16) -> Rectangle {
    Rectangle { x, y, width, height }
}

#[test]
fn a_run_begins_with_nothing_selected() {
    let state = Selection::new();
    assert_eq!(state.start_point, Point { x: 0, y: 0 });
    assert!(!state.in_selection);
    assert!(!state.ignore_next_release);
    assert_eq!(state.current_selection, rect(0, 0, 0, 0));
    assert_eq!(SETTLE_DELAY_MS, 40);
}

#[test]
fn span_is_the_area_between_two_points() {
    assert_eq!(span(Point { x: 10, y: 20 }, Point { x: 110, y: 70 }), rect(10, 20, 100, 50));
    assert_eq!(span(Point { x: 110, y: 20 }, Point { x: 10, y: 70 }), rect(10, 20, 100, 50));
    assert_eq!(span(Point { x: 5, y: 5 }, Point { x: 5, y: 5 }), rect(5, 5, 0, 0));
    assert_eq!(
        span(Point { x: i16::MIN, y: i16::MAX }, Point { x: i16::MAX, y: i16::MIN }),
        rect(i16::MIN, i16::MIN, u16::MAX, u16::MAX)
    );
}

#[test]
fn a_click_without_motion_asks_for_the_window() {
    assert_eq!(
        run_events(&[press(1, 300, 200), release(1)], ROOT),
        Ending::Completed(Completion::WindowAt(Point { x: 300, y: 200 }))
    );
    // also after hovering about with the guides
    assert_eq!(
        run_events(&[motion(5, 5), Event::Other, motion(9, 2), press(2, 9, 2), release(2)], ROOT),
        Ending::Completed(Completion::WindowAt(Point { x: 9, y: 2 }))
    );
}

#[test]
fn a_click_leaves_a_selection_without_size() {
    let mut state = Selection::new();
    assert_eq!(state.handle_event(press(1, 300, 200), true), Step::Continue(Feedback::Clear));
    assert!(state.in_selection);
    assert_eq!(state.handle_event(release(1), true), Step::Released);
    assert_eq!(state.current_selection.width, 0);
    assert_eq!(state.current_selection.height, 0);
    assert_eq!(state.complete(ROOT), Completion::WindowAt(Point { x: 300, y: 200 }));
}

#[test]
fn a_drag_selects_the_area_between_press_and_pointer() {
    let events = [press(1, 100, 100), motion(150, 130), motion(40, 180), release(1)];
    assert_eq!(
        run_events(&events, ROOT),
        Ending::Completed(Completion::Region(HacksawResult {
            window: ROOT,
            rect: rect(40, 100, 60, 80)
        }))
    );
}

#[test]
fn a_drag_along_one_axis_is_a_region_too() {
    assert_eq!(
        run_events(&[press(1, 10, 10), motion(10, 50), release(1)], ROOT),
        Ending::Completed(Completion::Region(HacksawResult {
            window: ROOT,
            rect: rect(10, 10, 0, 40)
        }))
    );
}

#[test]
fn a_drag_back_to_the_start_asks_for_the_window() {
    assert_eq!(
        run_events(&[press(1, 10, 10), motion(50, 50), motion(10, 10), release(1)], ROOT),
        Ending::Completed(Completion::WindowAt(Point { x: 10, y: 10 }))
    );
}

#[test]
fn motion_during_a_drag_shows_the_frame() {
    let mut state = Selection::new();
    state.handle_event(press(1, 100, 100), true);
    assert_eq!(
        state.handle_event(motion(150, 130), true),
        Step::Continue(Feedback::Frame(rect(100, 100, 50, 30)))
    );
    assert_eq!(state.current_selection, rect(100, 100, 50, 30));
    assert_eq!(state.start_point, Point { x: 100, y: 100 });
}

#[test]
fn motion_without_a_drag_shows_the_guides_if_wanted() {
    let mut state = Selection::new();
    assert_eq!(
        state.handle_event(motion(70, 80), true),
        Step::Continue(Feedback::Guides(Point { x: 70, y: 80 }))
    );
    assert_eq!(state.current_selection, rect(0, 0, 0, 0));
    assert_eq!(state.handle_event(motion(-7, 80), false), Step::Continue(Feedback::Unchanged));
    assert_eq!(state.current_selection, rect(-7, 0, 0, 0));
    assert!(!state.in_selection);
}

#[test]
fn right_click_cancels() {
    assert_eq!(run_events(&[press(3, 1, 1)], ROOT), Ending::Cancelled(Cancellation::RightClick));
    assert_eq!(
        run_events(&[press(1, 1, 1), motion(5, 5), press(3, 5, 5), release(1)], ROOT),
        Ending::Cancelled(Cancellation::RightClick)
    );
    let mut state = Selection::new();
    let before = state;
    assert_eq!(state.handle_event(press(3, 1, 1), true), Step::Cancelled(Cancellation::RightClick));
    assert_eq!(state, before);
}

#[test]
fn key_press_cancels() {
    assert_eq!(run_events(&[Event::KeyPress], ROOT), Ending::Cancelled(Cancellation::KeyPress));
    assert_eq!(
        run_events(&[press(1, 1, 1), motion(5, 5), Event::KeyPress, release(1)], ROOT),
        Ending::Cancelled(Cancellation::KeyPress)
    );
}

#[test]
fn the_wheel_neither_ends_the_run_nor_begins_a_drag() {
    for button in [4u8, 5] {
        let mut state = Selection::new();
        assert_eq!(state.handle_event(press(button, 30, 40), true), Step::Continue(Feedback::Clear));
        assert!(!state.in_selection);
        assert!(state.ignore_next_release);
        assert_eq!(state.start_point, Point { x: 30, y: 40 });
        assert_eq!(state.handle_event(release(button), true), Step::Continue(Feedback::Unchanged));
        assert!(!state.in_selection);
        // motion after it still selects nothing
        state.handle_event(motion(90, 90), true);
        assert_eq!(state.current_selection, rect(30, 40, 0, 0));
    }
    assert_eq!(
        run_events(&[press(4, 0, 0), release(4), press(5, 0, 0), release(5), press(4, 1, 1), release(5)], ROOT),
        Ending::EventsEnded
    );
}

#[test]
fn the_release_after_a_wheel_press_does_not_count() {
    // the wheel's own release is passed over, and so is the one after it
    assert_eq!(run_events(&[press(4, 0, 0), release(4), release(1)], ROOT), Ending::EventsEnded);
    assert_eq!(
        run_events(&[press(4, 7, 8), release(4), release(1), release(1)], ROOT),
        Ending::Completed(Completion::WindowAt(Point { x: 7, y: 8 }))
    );
    // a press of a button makes releases count again
    assert_eq!(
        run_events(&[press(5, 0, 0), release(5), press(1, 3, 4), release(1)], ROOT),
        Ending::Completed(Completion::WindowAt(Point { x: 3, y: 4 }))
    );
}

#[test]
fn events_that_run_out_end_the_run() {
    assert_eq!(run_events(&[], ROOT), Ending::EventsEnded);
    assert_eq!(run_events(&[press(1, 0, 0), motion(4, 4)], ROOT), Ending::EventsEnded);
    assert_eq!(run_events(&[Event::Other, Event::Other], ROOT), Ending::EventsEnded);
}

#[test]
fn events_after_the_end_are_not_read() {
    assert_eq!(
        run_events(&[press(1, 2, 2), release(1), Event::KeyPress, press(3, 0, 0)], ROOT),
        Ending::Completed(Completion::WindowAt(Point { x: 2, y: 2 }))
    );
}

#[test]
fn reasons_are_said_in_words() {
    assert_eq!(Cancellation::RightClick.message(), "Exiting due to right click");
    assert_eq!(Cancellation::KeyPress.message(), "Exiting due to ESC key press");
    assert_eq!(
        Cancellation::CursorGrabFailed.message(),
        "Failed to grab cursor after 5 tries, giving up"
    );
}

#[test]
fn guides_cross_at_the_pointer() {
    let screen = rect(0, 0, 1920, 1080);
    assert!(guides_fit(Point { x: 500, y: 300 }, 1));
    assert_eq!(
        build_guides(screen, Point { x: 500, y: 300 }, 1),
        [rect(500, 0, 1, 1080), rect(0, 300, 1920, 1)]
    );
    assert_eq!(
        build_guides(screen, Point { x: 500, y: 300 }, 5),
        [rect(498, 0, 5, 1080), rect(0, 298, 1920, 5)]
    );
    assert_eq!(
        build_guides(screen, Point { x: 0, y: 0 }, 4),
        [rect(-2, 0, 4, 1080), rect(0, -2, 1920, 4)]
    );
}

#[test]
fn guides_span_a_screen_that_lies_off_the_origin() {
    let screen = rect(7, 9, 100, 200);
    assert_eq!(
        build_guides(screen, Point { x: 50, y: 60 }, 2),
        [rect(49, 9, 2, 200), rect(7, 59, 100, 2)]
    );
}

#[test]
fn guides_beyond_the_range_are_told_apart() {
    assert!(guides_fit(Point { x: i16::MIN, y: 0 }, 1));
    assert!(!guides_fit(Point { x: i16::MIN, y: 0 }, 2));
    assert!(!guides_fit(Point { x: 0, y: i16::MIN }, 3));
    assert!(guides_fit(Point { x: 0, y: 0 }, 32767));
    assert!(!guides_fit(Point { x: 0, y: 0 }, 32768));
}

#[test]
fn the_frame_lies_around_the_area() {
    assert!(frame_fits(rect(100, 200, 50, 30), 1));
    assert_eq!(
        build_frame(rect(100, 200, 50, 30), 1),
        [rect(99, 200, 1, 31), rect(99, 199, 51, 1), rect(150, 199, 1, 31), rect(100, 230, 51, 1)]
    );
    assert_eq!(
        build_frame(rect(100, 200, 50, 30), 3),
        [rect(97, 200, 3, 33), rect(97, 197, 53, 3), rect(150, 197, 3, 33), rect(100, 230, 53, 3)]
    );
    assert_eq!(
        build_frame(rect(0, 0, 0, 0), 2),
        [rect(-2, 0, 2, 2), rect(-2, -2, 2, 2), rect(0, -2, 2, 2), rect(0, 0, 2, 2)]
    );
}

#[test]
fn frames_beyond_the_range_are_told_apart() {
    assert!(frame_fits(rect(i16::MIN + 1, 0, 10, 10), 1));
    assert!(!frame_fits(rect(i16::MIN, 0, 10, 10), 1));
    assert!(!frame_fits(rect(0, i16::MIN, 10, 10), 1));
    assert!(!frame_fits(rect(1, 0, 32767, 10), 1));
    assert!(frame_fits(rect(0, 0, 32767, 10), 1));
    assert!(!frame_fits(rect(0, 1, 10, 32767), 1));
    assert!(!frame_fits(rect(0, 0, 10, 10), 32768));
    assert!(frame_fits(rect(0, 0, 32767, 32767), 32767));
    assert!(!frame_fits(rect(-40000i32 as i16, 0, 65535, 1), 1));
}

#[test]
fn the_overlay_is_gone_when_both_notices_have_come() {
    let mut teardown = Teardown::new();
    assert_eq!(teardown, Teardown { unmapped: false, destroyed: false });
    assert!(!teardown.observe(Notice::Other));
    assert!(!teardown.observe(Notice::Unmapped));
    assert!(!teardown.observe(Notice::Unmapped));
    assert!(!teardown.observe(Notice::Other));
    assert!(teardown.observe(Notice::Destroyed));
    assert_eq!(teardown, Teardown { unmapped: true, destroyed: true });
    assert!(teardown.observe(Notice::Other));
}

#[test]
fn the_notices_may_come_in_either_order() {
    let mut teardown = Teardown::new();
    assert!(!teardown.observe(Notice::Destroyed));
    assert_eq!(teardown, Teardown { unmapped: false, destroyed: true });
    assert!(teardown.observe(Notice::Unmapped));
}

#[test]
fn every_ending_gives_back_what_is_held() {
    let release = vec![
        Closing::ReleasePointer,
        Closing::ReleaseKey,
        Closing::UnmapOverlay,
        Closing::DestroyOverlay,
        Closing::Flush,
    ];
    assert_eq!(closing_steps(Step::Cancelled(Cancellation::RightClick)), release);
    assert_eq!(closing_steps(Step::Cancelled(Cancellation::KeyPress)), release);
    assert_eq!(closing_steps(Step::Aborted), release);
    let mut after_release = release.clone();
    after_release.push(Closing::AwaitTeardown);
    after_release.push(Closing::Settle { delay_ms: 40 });
    assert_eq!(closing_steps(Step::Released), after_release);
}

#[test]
fn nothing_is_closed_while_the_run_goes_on() {
    assert_eq!(closing_steps(Step::Continue(Feedback::Clear)), vec![]);
    assert_eq!(closing_steps(Step::Continue(Feedback::Unchanged)), vec![]);
}

#[test]
fn a_broken_event_stream_aborts_the_run() {
    let mut state = Selection::new();
    state.handle_event(press(1, 10, 10), true);
    state.handle_event(motion(30, 40), true);
    let before = state;
    assert_eq!(state.handle_event(Event::StreamEnded, true), Step::Aborted);
    assert_eq!(state, before);
    assert_eq!(run_events(&[Event::StreamEnded, press(1, 0, 0), release(1)], ROOT), Ending::EventsEnded);
    assert_eq!(run_events(&[press(1, 0, 0), Event::StreamEnded, release(1)], ROOT), Ending::EventsEnded);
}

fn shown(window: u32, x: i16, y: i16, width: u16, height: u16) -> ChildWindow {
    ChildWindow {
        window,
        attributes: WindowAttributes {
            map_state: MapState::Viewable,
            class: WindowClass::InputOutput,
        },
        geometry: WindowGeometry { x, y, width, height, border_width: 0 },
    }
}

#[test]
fn a_click_on_nothing_gives_the_root_window() {
    let root_geometry = WindowGeometry { x: 0, y: 0, width: 1920, height: 1080, border_width: 0 };
    let children = [shown(5, 100, 100, 50, 50)];
    let done = match run_events(&[press(1, 300, 300), release(1)], ROOT) {
        Ending::Completed(done) => done,
        other => panic!("{:?}", other),
    };
    assert_eq!(done, Completion::WindowAt(Point { x: 300, y: 300 }));
    assert_eq!(
        final_result(done, &children, 2, &[], ROOT, &root_geometry),
        HacksawResult { window: ROOT, rect: rect(0, 0, 1920, 1080) }
    );
    // with no children at all it is the root as well
    assert_eq!(
        final_result(done, &[], 0, &[], ROOT, &root_geometry),
        HacksawResult { window: ROOT, rect: rect(0, 0, 1920, 1080) }
    );
}

#[test]
fn a_click_on_a_window_gives_that_window() {
    let root_geometry = WindowGeometry { x: 0, y: 0, width: 1920, height: 1080, border_width: 0 };
    let children = [shown(5, 100, 100, 50, 50)];
    let frames = [HacksawResult { window: 6, rect: rect(1, 2, 48, 46) }];
    let done = Completion::WindowAt(Point { x: 120, y: 120 });
    assert_eq!(
        final_result(done, &children, 0, &frames, ROOT, &root_geometry),
        HacksawResult { window: 5, rect: rect(100, 100, 50, 50) }
    );
    assert_eq!(
        final_result(done, &children, 1, &frames, ROOT, &root_geometry),
        HacksawResult { window: 6, rect: rect(101, 102, 48, 46) }
    );
}

#[test]
fn a_dragged_area_is_the_result_as_it_is() {
    let root_geometry = WindowGeometry { x: 0, y: 0, width: 1920, height: 1080, border_width: 0 };
    let children = [shown(5, 0, 0, 500, 500)];
    let area = HacksawResult { window: ROOT, rect: rect(10, 20, 30, 40) };
    assert_eq!(final_result(Completion::Region(area), &children, 3, &[], ROOT, &root_geometry), area);
}
