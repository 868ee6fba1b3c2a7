use hacksaw::format::token_for_code;
use hacksaw::{
    fill_format_string, parse_all, parse_anything, parse_format, parse_format_string,
    parse_literal, Format, FormatToken, HacksawResult, Rectangle,
};

fn result(window: u32, x: i16, y: i16, width: u16, height: u16) -> HacksawResult {
    HacksawResult { window, rect: Rectangle { x, y, width, height } }
}

#[test]
fn test_parse_format_string() {
    assert_eq!(
        parse_format_string("%wx%h+%x+%y"),
        Ok(Format(vec![
            FormatToken::Width,
            FormatToken::Literal("x".into()),
            FormatToken::Height,
            FormatToken::Literal("+".into()),
            FormatToken::X,
            FormatToken::Literal("+".into()),
            FormatToken::Y,
        ]))
    );

    assert_eq!(
        parse_format_string("%%h"),
        Ok(Format(vec![
            FormatToken::Literal("%".into()),
            FormatToken::Literal("h".into())
        ]))
    );

    assert_eq!(parse_format_string("%g"), Ok(Format(vec![FormatToken::Geometry])));

    assert!(parse_format_string("%-").is_err());
    assert!(parse_format_string("%-").unwrap_err().contains("'%-'"));

    assert_eq!(parse_format_string(""), Ok(Format(vec![])));

    assert_eq!(
        parse_format_string("hello world"),
        Ok(Format(vec![FormatToken::Literal("hello world".into())]))
    );
}

#[test]
fn every_code_has_its_token() {
    assert_eq!(
        parse_format_string("%i%g%w%h%x%y%%"),
        Ok(Format(vec![
            FormatToken::WindowId,
            FormatToken::Geometry,
            FormatToken::Width,
            FormatToken::Height,
            FormatToken::X,
            FormatToken::Y,
            FormatToken::Literal("%".into()),
        ]))
    );
}

#[test]
fn unknown_code_is_named() {
    assert_eq!(parse_format_string("%-"), Err("Unknown format '%-'".to_string()));
    assert_eq!(parse_format_string("ab%q%"), Err("Unknown format '%q'".to_string()));
    assert_eq!(parse_format_string("%W"), Err("Unknown format '%W'".to_string()));
    assert_eq!(parse_format_string("%\u{e9}"), Err("Unknown format '%\u{e9}'".to_string()));
}

#[test]
fn lone_percent_at_the_end_is_refused() {
    assert_eq!(parse_format_string("%"), Err("Incorrectly terminated '%'".to_string()));
    assert_eq!(parse_format_string("width %w%"), Err("Incorrectly terminated '%'".to_string()));
    assert_eq!(parse_format_string("%%%"), Err("Incorrectly terminated '%'".to_string()));
}

#[test]
fn the_first_fault_is_reported() {
    assert_eq!(parse_format_string("%a%b"), Err("Unknown format '%a'".to_string()));
    assert_eq!(parse_format_string("%w%z%"), Err("Unknown format '%z'".to_string()));
}

#[test]
fn literals_keep_characters_beyond_ascii() {
    assert_eq!(
        parse_format_string("\u{e9}t\u{e9} %w \u{2192}"),
        Ok(Format(vec![
            FormatToken::Literal("\u{e9}t\u{e9} ".into()),
            FormatToken::Width,
            FormatToken::Literal(" \u{2192}".into()),
        ]))
    );
}

#[test]
fn parse_format_reads_one_escape() {
    assert_eq!(parse_format("%wx"), Some(("x", FormatToken::Width)));
    assert_eq!(parse_format("%%"), Some(("", FormatToken::Literal("%".into()))));
    assert_eq!(parse_format("%i%g"), Some(("%g", FormatToken::WindowId)));
    assert_eq!(parse_format("w"), None);
    assert_eq!(parse_format("%"), None);
    assert_eq!(parse_format("%-"), None);
    assert_eq!(parse_format(""), None);
}

#[test]
fn parse_literal_reads_up_to_a_percent() {
    assert_eq!(parse_literal("abc%w"), Some(("%w", FormatToken::Literal("abc".into()))));
    assert_eq!(parse_literal("abc"), Some(("", FormatToken::Literal("abc".into()))));
    assert_eq!(parse_literal("%w"), None);
    assert_eq!(parse_literal(""), None);
}

#[test]
fn parse_anything_prefers_the_escape() {
    assert_eq!(parse_anything("%hx"), Some(("x", FormatToken::Height)));
    assert_eq!(parse_anything("x%h"), Some(("%h", FormatToken::Literal("x".into()))));
    assert_eq!(parse_anything("%?"), None);
    assert_eq!(parse_anything(""), None);
}

#[test]
fn parse_all_stops_at_what_it_cannot_read() {
    assert_eq!(parse_all(""), ("", vec![]));
    assert_eq!(
        parse_all("%wx%h"),
        ("", vec![FormatToken::Width, FormatToken::Literal("x".into()), FormatToken::Height])
    );
    assert_eq!(parse_all("%-"), ("%-", vec![]));
    assert_eq!(parse_all("ab%"), ("%", vec![FormatToken::Literal("ab".into())]));
    assert_eq!(parse_all("%x%q%y"), ("%q%y", vec![FormatToken::X]));
}

#[test]
fn geometry_is_written_as_size_and_position() {
    let format = vec![
        FormatToken::Width,
        FormatToken::Literal("x".into()),
        FormatToken::Height,
        FormatToken::Literal("+".into()),
        FormatToken::X,
        FormatToken::Literal("+".into()),
        FormatToken::Y,
    ];
    assert_eq!(result(7, 10, 20, 400, 300).fill_format_string(&format), "400x300+10+20");
    assert_eq!(
        result(7, 10, 20, 400, 300).fill_format_string(&[FormatToken::Geometry]),
        "400x300+10+20"
    );
}

#[test]
fn each_token_writes_its_field() {
    let r = result(4194311, -5, 0, 65535, 1);
    assert_eq!(r.fill_format_string(&[FormatToken::WindowId]), "4194311");
    assert_eq!(r.fill_format_string(&[FormatToken::Width]), "65535");
    assert_eq!(r.fill_format_string(&[FormatToken::Height]), "1");
    assert_eq!(r.fill_format_string(&[FormatToken::X]), "-5");
    assert_eq!(r.fill_format_string(&[FormatToken::Y]), "0");
    assert_eq!(r.fill_format_string(&[FormatToken::Geometry]), "65535x1+-5+0");
    assert_eq!(r.fill_format_string(&[FormatToken::Literal("50%".into())]), "50%");
    assert_eq!(r.fill_format_string(&[]), "");
}

#[test]
fn extreme_values_are_written_in_full() {
    let r = result(u32::MAX, i16::MIN, i16::MAX, 0, u16::MAX);
    assert_eq!(
        r.fill_format_string(&[
            FormatToken::WindowId,
            FormatToken::Literal(" ".into()),
            FormatToken::Geometry,
        ]),
        "4294967295 0x65535+-32768+32767"
    );
}

#[test]
fn free_function_fills_like_the_method() {
    let r = result(1, 2, 3, 4, 5);
    assert_eq!(
        fill_format_string(
            vec![FormatToken::X, FormatToken::Literal(",".into()), FormatToken::Y],
            r
        ),
        "2,3"
    );
    assert_eq!(fill_format_string(vec![FormatToken::Geometry], r), "4x5+2+3");
}

#[test]
fn parsing_then_filling_substitutes_the_fields() {
    let r = result(99, -1, 2, 30, 40);
    let format = parse_format_string("id=%i at %x,%y size %wx%h (%g) 100%%").unwrap();
    assert_eq!(r.fill_format_string(&format.0), "id=99 at -1,2 size 30x40 (30x40+-1+2) 100%");
}

#[test]
fn writing_a_format_out_and_parsing_it_fills_alike() {
    let r = result(3, 4, 5, 6, 7);
    // Two literals side by side and one with a percent sign in it: written
    // out this is "ab50%%%w", which comes back as other tokens.
    let tokens = vec![
        FormatToken::Literal("a".into()),
        FormatToken::Literal("b50%".into()),
        FormatToken::Width,
    ];
    let back = parse_format_string("ab50%%%w").unwrap();
    assert_eq!(
        back,
        Format(vec![
            FormatToken::Literal("ab50".into()),
            FormatToken::Literal("%".into()),
            FormatToken::Width,
        ])
    );
    assert_eq!(r.fill_format_string(&back.0), r.fill_format_string(&tokens));
    assert_eq!(r.fill_format_string(&tokens), "ab50%6");
}

#[test]
fn codes_are_case_sensitive() {
    assert_eq!(token_for_code('i'), Some(FormatToken::WindowId));
    assert_eq!(token_for_code('g'), Some(FormatToken::Geometry));
    assert_eq!(token_for_code('w'), Some(FormatToken::Width));
    assert_eq!(token_for_code('h'), Some(FormatToken::Height));
    assert_eq!(token_for_code('x'), Some(FormatToken::X));
    assert_eq!(token_for_code('y'), Some(FormatToken::Y));
    assert_eq!(token_for_code('%'), Some(FormatToken::Literal("%".into())));
    for c in ['I', 'G', 'W', 'H', 'X', 'Y', '-', ' ', 'a', '0'] {
        assert_eq!(token_for_code(c), None);
    }
}
