//! What parsing and filling a format mean, said a second time without
//! tokens, and the proofs that both ways of saying it agree.
//!
//! A template can be read character by character: a plain character stands
//! for itself, a `%` and a code stand for a field of the result. Parsing a
//! template and filling the format writes exactly that, and writing a format
//! back out as a template and parsing it again gives a format that fills
//! alike.

use crate::format::{
    code_token, lemma_leading_token_fits, lemma_run_length, leading_escape, leading_token, parsed,
    readable, rendered, run_length, token_text, Token,
};
use crate::geometry::HacksawResult;
use vstd::prelude::*;

verus! {

/// A template is well formed if each `%` in it begins an escape: it is
/// followed by a code, and a `%` that is a code begins none itself.
pub open spec fn well_formed(s: Seq<char>) -> bool
    decreases s.len(),
{
    if s.len() == 0 {
        true
    } else if s[0] != '%' {
        well_formed(s.skip(1))
    } else {
        s.len() >= 2 && code_token(s[1]) is Some && well_formed(s.skip(2))
    }
}

/// What a well-formed template writes for a result: each plain character
/// as it is, and for each escape what its token writes.
pub open spec fn substituted(s: Seq<char>, result: HacksawResult) -> Seq<char>
    decreases s.len(),
{
    if s.len() == 0 {
        Seq::empty()
    } else if s[0] != '%' {
        seq![s[0]] + substituted(s.skip(1), result)
    } else if s.len() >= 2 && code_token(s[1]) is Some {
        token_text(code_token(s[1])->0, result) + substituted(s.skip(2), result)
    } else {
        Seq::empty()
    }
}

/// Text with each `%` written twice, so that a template holds it as text.
pub open spec fn escaped(text: Seq<char>) -> Seq<char>
    decreases text.len(),
{
    if text.len() == 0 {
        Seq::empty()
    } else if text[0] == '%' {
        seq!['%', '%'] + escaped(text.skip(1))
    } else {
        seq![text[0]] + escaped(text.skip(1))
    }
}

/// How a token is written in a template.
pub open spec fn token_source(token: Token) -> Seq<char> {
    match token {
        Token::WindowId => seq!['%', 'i'],
        Token::Geometry => seq!['%', 'g'],
        Token::Width => seq!['%', 'w'],
        Token::Height => seq!['%', 'h'],
        Token::X => seq!['%', 'x'],
        Token::Y => seq!['%', 'y'],
        Token::Literal(text) => escaped(text),
    }
}

/// The template that writes a format out: its tokens, each as it is
/// written, one after the other.
pub open spec fn canonical_text(tokens: Seq<Token>) -> Seq<char>
    decreases tokens.len(),
{
    if tokens.len() == 0 {
        Seq::empty()
    } else {
        token_source(tokens[0]) + canonical_text(tokens.skip(1))
    }
}

/// Plain characters at the beginning of a template stand for themselves
/// and change nothing about the rest.
pub proof fn lemma_plain_prefix(s: Seq<char>, n: int, result: HacksawResult)
    requires
        0 <= n <= s.len(),
        forall|i: int| 0 <= i < n ==> #[trigger] s[i] != '%',
    ensures
        well_formed(s) == well_formed(s.skip(n)),
        substituted(s, result) == s.take(n) + substituted(s.skip(n), result),
    decreases n,
{
    if n == 0 {
        assert(s.skip(0) == s);
        assert(s.take(0) + substituted(s, result) == substituted(s, result));
    } else {
        let rest = s.skip(1);
        assert forall|i: int| 0 <= i < n - 1 implies #[trigger] rest[i] != '%' by {
            assert(rest[i] == s[i + 1]);
        }
        lemma_plain_prefix(rest, n - 1, result);
        assert(rest.skip(n - 1) == s.skip(n));
        assert(seq![s[0]] + rest.take(n - 1) == s.take(n));
        assert(seq![s[0]] + (rest.take(n - 1) + substituted(s.skip(n), result)) == s.take(n)
            + substituted(s.skip(n), result));
    }
}

/// Reading a template to its end succeeds on the well-formed ones and on
/// no others, and the tokens read write what the template writes.
pub proof fn lemma_readable_agrees(s: Seq<char>, result: HacksawResult)
    ensures
        well_formed(s) <==> readable(s).1 == s.len(),
        readable(s).1 <= s.len(),
        well_formed(s) ==> rendered(readable(s).0, result) == substituted(s, result),
    decreases s.len(),
{
    lemma_leading_token_fits(s);
    lemma_run_length(s);
    match leading_token(s) {
        None => {
            assert(readable(s).0.len() == 0);
        },
        Some((token, taken)) => {
            let rest = s.skip(taken as int);
            lemma_readable_agrees(rest, result);
            let (tokens, more) = readable(rest);
            let all = seq![token] + tokens;
            assert(readable(s) == (all, taken + more));
            assert(all[0] == token);
            assert(all.skip(1) == tokens);
            assert(rendered(all, result) == token_text(token, result) + rendered(tokens, result));
            if leading_escape(s) is Some {
                assert(taken == 2);
            } else {
                assert(taken == run_length(s));
                lemma_plain_prefix(s, taken as int, result);
            }
        },
    }
}

/// A template parses if and only if it is well formed.
pub proof fn lemma_parsed_iff_well_formed(s: Seq<char>)
    ensures
        parsed(s) is Ok <==> well_formed(s),
{
    let origin = HacksawResult {
        window: 0,
        rect: crate::geometry::Rectangle { x: 0, y: 0, width: 0, height: 0 },
    };
    lemma_readable_agrees(s, origin);
}

/// Filling the format that a template parses to writes, for every result,
/// the template with each escape replaced by the field it stands for.
pub proof fn lemma_filled_is_substituted(s: Seq<char>, result: HacksawResult)
    requires
        well_formed(s),
    ensures
        parsed(s) matches Ok(tokens) && rendered(tokens, result) == substituted(s, result),
{
    lemma_readable_agrees(s, result);
}

/// Text without a `%` is written in a template as it is.
pub proof fn lemma_escaped_plain(text: Seq<char>)
    requires
        forall|i: int| 0 <= i < text.len() ==> #[trigger] text[i] != '%',
    ensures
        escaped(text) == text,
    decreases text.len(),
{
    if text.len() > 0 {
        let rest = text.skip(1);
        assert forall|i: int| 0 <= i < rest.len() implies #[trigger] rest[i] != '%' by {
            assert(rest[i] == text[i + 1]);
        }
        lemma_escaped_plain(rest);
        assert(text[0] != '%');
        assert(seq![text[0]] + rest == text);
    }
}

/// The tokens read from a template, written out again, are the part of the
/// template that they were read from.
pub proof fn lemma_canonical_text_of_readable(s: Seq<char>)
    ensures
        readable(s).1 <= s.len(),
        canonical_text(readable(s).0) == s.take(readable(s).1 as int),
    decreases s.len(),
{
    lemma_leading_token_fits(s);
    lemma_run_length(s);
    match leading_token(s) {
        None => {
            assert(readable(s).0.len() == 0);
            assert(s.take(0) == Seq::<char>::empty());
        },
        Some((token, taken)) => {
            let rest = s.skip(taken as int);
            lemma_canonical_text_of_readable(rest);
            let (tokens, more) = readable(rest);
            let all = seq![token] + tokens;
            assert(readable(s) == (all, taken + more));
            assert(all[0] == token);
            assert(all.skip(1) == tokens);
            assert(canonical_text(all) == token_source(token) + canonical_text(tokens));
            if leading_escape(s) is Some {
                if s[1] == '%' {
                    let percent = seq!['%'];
                    assert(percent.skip(1) == Seq::<char>::empty());
                    assert(escaped(percent.skip(1)) == Seq::<char>::empty());
                    assert(escaped(percent) == seq!['%', '%'] + Seq::<char>::empty());
                    assert(escaped(percent) == seq!['%', '%']);
                }
                assert(token_source(token) == seq!['%', s[1]]);
                assert(seq!['%', s[1]] == s.take(2));
            } else {
                let run = s.take(taken as int);
                assert forall|i: int| 0 <= i < run.len() implies #[trigger] run[i] != '%' by {
                    assert(run[i] == s[i]);
                }
                lemma_escaped_plain(run);
            }
            assert(s.take(taken as int) + rest.take(more as int) == s.take((taken + more) as int));
        },
    }
}

/// A format that was parsed from a template is written out as that very
/// template.
pub proof fn lemma_canonical_text_of_parsed(s: Seq<char>)
    ensures
        parsed(s) matches Ok(tokens) ==> canonical_text(tokens) == s,
{
    lemma_canonical_text_of_readable(s);
    if parsed(s) is Ok {
        assert(s.take(s.len() as int) == s);
    }
}

/// Text that was escaped, before a well-formed template, is well formed
/// with it and writes the text as it was.
pub proof fn lemma_escaped_writes_text(text: Seq<char>, after: Seq<char>, result: HacksawResult)
    requires
        well_formed(after),
    ensures
        well_formed(escaped(text) + after),
        substituted(escaped(text) + after, result) == text + substituted(after, result),
    decreases text.len(),
{
    let s = escaped(text) + after;
    if text.len() == 0 {
        assert(s == after);
        assert(text + substituted(after, result) == substituted(after, result));
    } else {
        let rest = text.skip(1);
        lemma_escaped_writes_text(rest, after, result);
        let tail = escaped(rest) + after;
        if text[0] == '%' {
            assert(s == seq!['%', '%'] + tail);
            assert(s[0] == '%' && s[1] == '%');
            assert(s.skip(2) == tail);
            assert(code_token('%') == Some(Token::Literal(seq!['%'])));
            assert(substituted(s, result) == seq!['%'] + substituted(tail, result));
            assert(seq!['%'] + (rest + substituted(after, result)) == text + substituted(
                after,
                result,
            ));
        } else {
            assert(s == seq![text[0]] + tail);
            assert(s[0] == text[0]);
            assert(s.skip(1) == tail);
            assert(seq![text[0]] + (rest + substituted(after, result)) == text + substituted(
                after,
                result,
            ));
        }
    }
}

/// A token as it is written, before a well-formed template, is well formed
/// with it and writes what the token writes.
pub proof fn lemma_token_source_writes_token(
    token: Token,
    after: Seq<char>,
    result: HacksawResult,
)
    requires
        well_formed(after),
    ensures
        well_formed(token_source(token) + after),
        substituted(token_source(token) + after, result) == token_text(token, result)
            + substituted(after, result),
{
    match token {
        Token::Literal(text) => {
            lemma_escaped_writes_text(text, after, result);
        },
        _ => {
            let s = token_source(token) + after;
            assert(s[0] == '%');
            assert(s[1] == token_source(token)[1]);
            assert(code_token(s[1]) == Some(token));
            assert(s.skip(2) == after);
        },
    }
}

/// A format written out as a template is well formed and writes what the
/// format writes.
pub proof fn lemma_canonical_text_writes_format(tokens: Seq<Token>, result: HacksawResult)
    ensures
        well_formed(canonical_text(tokens)),
        substituted(canonical_text(tokens), result) == rendered(tokens, result),
    decreases tokens.len(),
{
    if tokens.len() > 0 {
        lemma_canonical_text_writes_format(tokens.skip(1), result);
        lemma_token_source_writes_token(tokens[0], canonical_text(tokens.skip(1)), result);
    }
}

/// Any format, written out as a template and parsed again, comes back as
/// a format that fills like it for every result. The tokens may differ:
/// literals that stand side by side come back as one, and a literal with a
/// `%` in it comes back in pieces.
pub proof fn lemma_parse_of_canonical_text(tokens: Seq<Token>, result: HacksawResult)
    ensures
        parsed(canonical_text(tokens)) matches Ok(back) && rendered(back, result) == rendered(
            tokens,
            result,
        ),
{
    lemma_canonical_text_writes_format(tokens, result);
    lemma_filled_is_substituted(canonical_text(tokens), result);
}

} // verus!
