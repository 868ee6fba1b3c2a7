use hacksaw::text::{chars_of, digit_str, push_decimal, push_signed_decimal};
use hacksaw::{min_max, HacksawResult, Point, Rectangle};

fn area(x: i16, y: i16, width: u16, height: u16) -> HacksawResult {
    HacksawResult { window: 1, rect: Rectangle { x, y, width, height } }
}

#[test]
fn min_max_orders_its_arguments() {
    assert_eq!(min_max(1, 2), (1, 2));
    assert_eq!(min_max(2, 1), (1, 2));
    assert_eq!(min_max(-3, -3), (-3, -3));
    assert_eq!(min_max(i16::MAX, i16::MIN), (i16::MIN, i16::MAX));
}

#[test]
fn getters_read_the_rectangle() {
    let r = HacksawResult { window: 9, rect: Rectangle { x: -1, y: 2, width: 3, height: 4 } };
    assert_eq!((r.x(), r.y(), r.width(), r.height()), (-1, 2, 3, 4));
    assert_eq!(r.window, 9);
}

#[test]
fn near_edges_are_outside_and_far_edges_inside() {
    let window = area(10, 10, 50, 50);
    assert!(!window.contains(Point { x: 10, y: 10 }));
    assert!(window.contains(Point { x: 60, y: 60 }));
    assert!(!window.contains(Point { x: 61, y: 61 }));

    assert!(window.contains(Point { x: 11, y: 11 }));
    assert!(!window.contains(Point { x: 10, y: 30 }));
    assert!(!window.contains(Point { x: 30, y: 10 }));
    assert!(window.contains(Point { x: 60, y: 11 }));
    assert!(!window.contains(Point { x: 61, y: 30 }));
    assert!(!window.contains(Point { x: 30, y: 61 }));
}

#[test]
fn containment_holds_over_the_whole_range() {
    let everything = area(i16::MIN, i16::MIN, u16::MAX, u16::MAX);
    assert!(everything.contains(Point { x: i16::MAX, y: i16::MAX }));
    assert!(!everything.contains(Point { x: i16::MIN, y: 0 }));
    let wide = area(-1, -1, 40000, 1);
    assert!(wide.contains(Point { x: 32767, y: 0 }));
    assert!(!wide.contains(Point { x: 32767, y: 1 }));
    let nothing = area(5, 5, 0, 0);
    assert!(!nothing.contains(Point { x: 5, y: 5 }));
    assert!(!nothing.contains(Point { x: 6, y: 6 }));
}

#[test]
fn relative_to_adds_the_parents_position() {
    let parent = HacksawResult { window: 1, rect: Rectangle { x: 100, y: -20, width: 800, height: 600 } };
    let child = HacksawResult { window: 2, rect: Rectangle { x: 3, y: 25, width: 790, height: 570 } };
    assert!(child.can_be_relative_to(parent));
    assert_eq!(
        child.relative_to(parent),
        HacksawResult { window: 2, rect: Rectangle { x: 103, y: 5, width: 790, height: 570 } }
    );
}

#[test]
fn positions_beyond_the_range_are_told_apart() {
    let parent = area(i16::MAX, 0, 1, 1);
    assert!(area(0, 0, 1, 1).can_be_relative_to(parent));
    assert!(!area(1, 0, 1, 1).can_be_relative_to(parent));
    assert!(area(-1, i16::MIN, 1, 1).can_be_relative_to(parent));
    assert!(!area(0, i16::MIN, 1, 1).can_be_relative_to(area(0, -1, 1, 1)));
}

#[test]
fn decimal_numbers_have_no_leading_zero() {
    for (n, text) in [(0u32, "0"), (9, "9"), (10, "10"), (101, "101"), (65535, "65535"), (u32::MAX, "4294967295")] {
        let mut out = String::from("n=");
        push_decimal(&mut out, n);
        assert_eq!(out, format!("n={}", text));
        assert_eq!(out, format!("n={}", n));
    }
}

#[test]
fn coordinates_below_zero_have_a_sign() {
    for (i, text) in [(0i16, "0"), (-1, "-1"), (7, "7"), (i16::MIN, "-32768"), (i16::MAX, "32767"), (-100, "-100")] {
        let mut out = String::new();
        push_signed_decimal(&mut out, i);
        assert_eq!(out, text);
        assert_eq!(out, i.to_string());
    }
}

#[test]
fn digits_are_single_characters() {
    let all: Vec<&str> = (0..10).map(digit_str).collect();
    assert_eq!(all, vec!["0", "1", "2", "3", "4", "5", "6", "7", "8", "9"]);
}

#[test]
fn characters_come_in_order() {
    assert_eq!(chars_of(""), Vec::<char>::new());
    assert_eq!(chars_of("a%\u{e9}"), vec!['a', '%', '\u{e9}']);
}
