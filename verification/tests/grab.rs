use hacksaw::{
    after_grab_attempt, find_escape_keycode, grab_pointer_set_cursor, has_escape_keycode,
    key_grab_masks, GrabStatus, GrabStep, CURSOR_GRAB_DELAY_MS, CURSOR_GRAB_TRIES, ESC_KEYSYM,
    KEY_GRAB_MASK_MAX,
};

#[test]
fn constants_have_their_values() {
    assert_eq!(CURSOR_GRAB_TRIES, 5);
    assert_eq!(CURSOR_GRAB_DELAY_MS, 100);
    assert_eq!(ESC_KEYSYM, 0xff1b);
    assert_eq!(KEY_GRAB_MASK_MAX, 255);
}

#[test]
fn success_ends_the_tries() {
    for attempt in 0..CURSOR_GRAB_TRIES {
        assert_eq!(after_grab_attempt(attempt, GrabStatus::Success), GrabStep::Acquired);
    }
}

#[test]
fn failure_is_tried_again_after_a_pause() {
    for status in [
        GrabStatus::AlreadyGrabbed,
        GrabStatus::InvalidTime,
        GrabStatus::NotViewable,
        GrabStatus::Frozen,
    ] {
        for attempt in 0..4 {
            assert_eq!(
                after_grab_attempt(attempt, status),
                GrabStep::Retry { attempt: attempt + 1, delay_ms: 100 }
            );
        }
        assert_eq!(after_grab_attempt(4, status), GrabStep::GiveUp);
    }
}

#[test]
fn the_pointer_is_held_if_one_of_five_tries_succeeds() {
    let ok = GrabStatus::Success;
    let frozen = GrabStatus::Frozen;
    let taken = GrabStatus::AlreadyGrabbed;
    assert!(grab_pointer_set_cursor(&[ok]));
    assert!(grab_pointer_set_cursor(&[frozen, taken, ok]));
    assert!(grab_pointer_set_cursor(&[frozen, frozen, frozen, frozen, ok]));
    assert!(!grab_pointer_set_cursor(&[frozen, frozen, frozen, frozen, frozen]));
    assert!(!grab_pointer_set_cursor(&[frozen, frozen, frozen, frozen, frozen, ok]));
    assert!(!grab_pointer_set_cursor(&[]));
    assert!(!grab_pointer_set_cursor(&[taken]));
}

#[test]
fn every_modifier_mask_is_listed_once() {
    let masks = key_grab_masks();
    assert_eq!(masks.len(), 256);
    assert_eq!(masks, (0..=255).collect::<Vec<u16>>());
    assert_eq!(masks[0], 0);
    assert_eq!(masks[255], KEY_GRAB_MASK_MAX);
}

#[test]
fn escape_is_found_in_its_row() {
    // two keysyms per keycode, keycodes from 8 on: escape stands in row 1
    let keysyms = [0x31, 0x21, ESC_KEYSYM, 0, 0x32, 0x40];
    assert!(has_escape_keycode(&keysyms, 2, 8));
    assert_eq!(find_escape_keycode(&keysyms, 2, 8), 9);
    assert_eq!(find_escape_keycode(&keysyms, 1, 8), 10);
    assert_eq!(find_escape_keycode(&keysyms, 3, 8), 8);
    assert_eq!(find_escape_keycode(&keysyms, 7, 0), 0);
}

#[test]
fn the_first_escape_counts() {
    let keysyms = [0, 0, 0, ESC_KEYSYM, 0, ESC_KEYSYM, ESC_KEYSYM, 0];
    assert_eq!(find_escape_keycode(&keysyms, 2, 8), 9);
    assert_eq!(find_escape_keycode(&keysyms, 1, 8), 11);
}

#[test]
fn the_last_keycode_can_be_escape() {
    assert!(has_escape_keycode(&[0, ESC_KEYSYM], 1, 254));
    assert_eq!(find_escape_keycode(&[0, ESC_KEYSYM], 1, 254), 255);
    assert!(has_escape_keycode(&[ESC_KEYSYM], 1, 255));
    assert_eq!(find_escape_keycode(&[ESC_KEYSYM], 1, 255), 255);
}

#[test]
fn a_mapping_without_escape_has_no_keycode() {
    assert!(!has_escape_keycode(&[], 2, 8));
    assert!(!has_escape_keycode(&[1, 2, 3], 1, 8));
    assert!(!has_escape_keycode(&[0xff1a, 0xff1c], 1, 8));
}

#[test]
fn a_row_beyond_the_last_keycode_is_no_keycode() {
    assert!(!has_escape_keycode(&[ESC_KEYSYM], 0, 8));
    assert!(!has_escape_keycode(&[0, ESC_KEYSYM], 1, 255));
}
