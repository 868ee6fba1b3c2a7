//! Output format templates.
//!
//! A template is text in which `%i`, `%g`, `%w`, `%h`, `%x` and `%y` stand
//! for the window id, the geometry, the width, the height and the position
//! of a result, and `%%` stands for a percent sign. Parsing turns a template
//! into tokens; filling writes the tokens out for a result.

use crate::geometry::HacksawResult;
use crate::text::{chars_of, decimal, push_decimal, push_signed_decimal, signed_decimal};
use vstd::prelude::*;

verus! {

/// One piece of a format: a field of the result, or text to copy.
#[derive(Debug, PartialEq, Eq)]
pub enum FormatToken {
    WindowId,
    Geometry,
    Width,
    Height,
    X,
    Y,
    Literal(String),
}

/// A parsed format: its tokens in order.
#[derive(Debug, PartialEq, Eq)]
pub struct Format(pub Vec<FormatToken>);

/// A token as a value: the text of a literal is a sequence of characters.
pub enum Token {
    WindowId,
    Geometry,
    Width,
    Height,
    X,
    Y,
    Literal(Seq<char>),
}

/// Why a template is no format.
pub enum FormatFault {
    /// A `%` at the very end.
    Unterminated,
    /// A `%` followed by a character that is no code.
    UnknownCode(char),
}

impl View for FormatToken {
    type V = Token;

    open spec fn view(&self) -> Token {
        match self {
            FormatToken::WindowId => Token::WindowId,
            FormatToken::Geometry => Token::Geometry,
            FormatToken::Width => Token::Width,
            FormatToken::Height => Token::Height,
            FormatToken::X => Token::X,
            FormatToken::Y => Token::Y,
            FormatToken::Literal(text) => Token::Literal(text@),
        }
    }
}

/// The tokens of a slice as values.
pub open spec fn token_views(tokens: Seq<FormatToken>) -> Seq<Token> {
    Seq::new(tokens.len(), |i: int| tokens[i]@)
}

impl View for Format {
    type V = Seq<Token>;

    open spec fn view(&self) -> Seq<Token> {
        token_views(self.0@)
    }
}

/// The token that a code stands for: the character after a `%`.
pub open spec fn code_token(code: char) -> Option<Token> {
    if code == 'i' {
        Some(Token::WindowId)
    } else if code == 'g' {
        Some(Token::Geometry)
    } else if code == 'w' {
        Some(Token::Width)
    } else if code == 'h' {
        Some(Token::Height)
    } else if code == 'x' {
        Some(Token::X)
    } else if code == 'y' {
        Some(Token::Y)
    } else if code == '%' {
        Some(Token::Literal(seq!['%']))
    } else {
        None
    }
}

/// How many characters stand before the first `%`, or in the whole text if
/// it has none.
pub open spec fn run_length(s: Seq<char>) -> nat
    decreases s.len(),
{
    if s.len() == 0 || s[0] == '%' {
        0
    } else {
        1 + run_length(s.skip(1))
    }
}

/// The escape that the text begins with: a `%` and a code.
pub open spec fn leading_escape(s: Seq<char>) -> Option<Token> {
    if s.len() >= 2 && s[0] == '%' {
        code_token(s[1])
    } else {
        None
    }
}

/// The literal that the text begins with: all there is before the first
/// `%`, if that is anything.
pub open spec fn leading_literal(s: Seq<char>) -> Option<Token> {
    if run_length(s) > 0 {
        Some(Token::Literal(s.take(run_length(s) as int)))
    } else {
        None
    }
}

/// The token that the text begins with, and how many characters it takes.
/// There is none where the text is empty, ends after a `%`, or has a `%`
/// before a character that is no code.
pub open spec fn leading_token(s: Seq<char>) -> Option<(Token, nat)> {
    match leading_escape(s) {
        Some(token) => Some((token, 2)),
        None => match leading_literal(s) {
            Some(token) => Some((token, run_length(s))),
            None => None,
        },
    }
}

/// The tokens that can be read from the beginning of the text, one after
/// the other, until none is left or none can be read; and how many
/// characters they take.
pub open spec fn readable(s: Seq<char>) -> (Seq<Token>, nat)
    decreases s.len(),
{
    match leading_token(s) {
        Some((token, taken)) => {
            proof {
                lemma_leading_token_fits(s);
            }
            let (tokens, more) = readable(s.skip(taken as int));
            (seq![token] + tokens, taken + more)
        },
        None => (Seq::empty(), 0),
    }
}

/// What a template parses to. It is a format if it can be read to its end.
/// Where reading stops, there stands a `%`: a lone one at the end, or one
/// before an unknown code.
pub open spec fn parsed(s: Seq<char>) -> Result<Seq<Token>, FormatFault> {
    let (tokens, taken) = readable(s);
    if taken >= s.len() {
        Ok(tokens)
    } else if taken + 1 == s.len() {
        Err(FormatFault::Unterminated)
    } else {
        Err(FormatFault::UnknownCode(s[taken as int + 1]))
    }
}

/// The words for a fault.
pub open spec fn fault_text(fault: FormatFault) -> Seq<char> {
    match fault {
        FormatFault::Unterminated => "Incorrectly terminated '%'"@,
        FormatFault::UnknownCode(code) => "Unknown format '%"@ + seq![code] + "'"@,
    }
}

/// What a token writes for a result.
pub open spec fn token_text(token: Token, result: HacksawResult) -> Seq<char> {
    match token {
        Token::WindowId => decimal(result.window as nat),
        Token::Geometry => decimal(result.rect.width as nat) + seq!['x'] + decimal(
            result.rect.height as nat,
        ) + seq!['+'] + signed_decimal(result.rect.x as int) + seq!['+'] + signed_decimal(
            result.rect.y as int,
        ),
        Token::Width => decimal(result.rect.width as nat),
        Token::Height => decimal(result.rect.height as nat),
        Token::X => signed_decimal(result.rect.x as int),
        Token::Y => signed_decimal(result.rect.y as int),
        Token::Literal(text) => text,
    }
}

/// What a format writes for a result: what its tokens write, one after the
/// other.
pub open spec fn rendered(tokens: Seq<Token>, result: HacksawResult) -> Seq<char>
    decreases tokens.len(),
{
    if tokens.len() == 0 {
        Seq::empty()
    } else {
        token_text(tokens[0], result) + rendered(tokens.skip(1), result)
    }
}

/// A literal run ends within the text; before its end stands no `%`, and
/// at its end stands one, or the text ends.
pub proof fn lemma_run_length(s: Seq<char>)
    ensures
        run_length(s) <= s.len(),
        forall|i: int| 0 <= i < run_length(s) ==> #[trigger] s[i] != '%',
        run_length(s) < s.len() ==> s[run_length(s) as int] == '%',
    decreases s.len(),
{
    if !(s.len() == 0 || s[0] == '%') {
        let rest = s.skip(1);
        lemma_run_length(rest);
        assert forall|i: int| 0 <= i < run_length(s) implies #[trigger] s[i] != '%' by {
            if i > 0 {
                assert(s[i] == rest[i - 1]);
            }
        }
        if run_length(s) < s.len() {
            assert(s[run_length(s) as int] == rest[run_length(rest) as int]);
        }
    }
}

/// The place of the first `%` is the length of the literal run.
pub proof fn lemma_run_ends_at(s: Seq<char>, n: int)
    requires
        0 <= n <= s.len(),
        forall|i: int| 0 <= i < n ==> #[trigger] s[i] != '%',
        n < s.len() ==> s[n] == '%',
    ensures
        run_length(s) == n,
{
    lemma_run_length(s);
    let r = run_length(s) as int;
    if r < n {
        assert(s[r] != '%');
    } else if n < r {
        assert(s[n] != '%');
    }
}

/// A token that the text begins with takes at least one character, and no
/// more than there are.
pub proof fn lemma_leading_token_fits(s: Seq<char>)
    ensures
        leading_token(s) matches Some((_, taken)) ==> 0 < taken <= s.len(),
{
    lemma_run_length(s);
}

/// Reading takes no more characters than there are. Where it stops before
/// the end, the next character is a `%` that begins no escape.
pub proof fn lemma_readable_stops_at_percent(s: Seq<char>)
    ensures
        readable(s).1 <= s.len(),
        readable(s).1 < s.len() ==> s[readable(s).1 as int] == '%' && leading_token(
            s.skip(readable(s).1 as int),
        ) is None,
    decreases s.len(),
{
    lemma_leading_token_fits(s);
    lemma_run_length(s);
    match leading_token(s) {
        Some((token, taken)) => {
            let rest = s.skip(taken as int);
            lemma_readable_stops_at_percent(rest);
            let more = readable(rest).1;
            if taken + more < s.len() {
                assert(rest[more as int] == s[(taken + more) as int]);
                assert(rest.skip(more as int) == s.skip((taken + more) as int));
            }
        },
        None => {
            assert(s.skip(0) == s);
            if s.len() > 0 {
                assert(run_length(s) == 0);
            }
        },
    }
}

/// Reading goes on after a token that was read.
pub proof fn lemma_readable_step(s: Seq<char>)
    ensures
        match leading_token(s) {
            Some((token, taken)) => readable(s) == (
                seq![token] + readable(s.skip(taken as int)).0,
                taken + readable(s.skip(taken as int)).1,
            ),
            None => readable(s) == (Seq::<Token>::empty(), 0nat),
        },
{
    lemma_leading_token_fits(s);
}

/// Writing the tokens of two formats one after the other is writing what
/// each of them writes.
pub proof fn lemma_rendered_concat(a: Seq<Token>, b: Seq<Token>, result: HacksawResult)
    ensures
        rendered(a + b, result) == rendered(a, result) + rendered(b, result),
    decreases a.len(),
{
    if a.len() == 0 {
        assert(a + b == b);
    } else {
        lemma_rendered_concat(a.skip(1), b, result);
        assert((a + b).skip(1) == a.skip(1) + b);
        assert((a + b)[0] == a[0]);
    }
}

/// The token for a code, or `None` for a character that is no code.
pub fn token_for_code(code: char) -> (token: Option<FormatToken>)
    ensures
        match token {
            Some(t) => code_token(code) == Some(t@),
            None => code_token(code) is None,
        },
{
    if code == 'i' {
        Some(FormatToken::WindowId)
    } else if code == 'g' {
        Some(FormatToken::Geometry)
    } else if code == 'w' {
        Some(FormatToken::Width)
    } else if code == 'h' {
        Some(FormatToken::Height)
    } else if code == 'x' {
        Some(FormatToken::X)
    } else if code == 'y' {
        Some(FormatToken::Y)
    } else if code == '%' {
        proof {
            reveal_strlit("%");
        }
        let percent = String::from_str("%");
        assert(percent@ =~= seq!['%']);
        Some(FormatToken::Literal(percent))
    } else {
        None
    }
}

/// Reads an escape at the beginning of the input: a `%` and a code. Gives
/// the rest of the input and the token.
pub fn parse_format<'a>(input: &'a str) -> (r: Option<(&'a str, FormatToken)>)
    ensures
        match r {
            Some((rest, token)) => leading_escape(input@) == Some(token@) && rest@
                == input@.skip(2),
            None => leading_escape(input@) is None,
        },
{
    let len: usize = input.unicode_len();
    if len < 2 || input.get_char(0) != '%' {
        return None;
    }
    match token_for_code(input.get_char(1)) {
        Some(token) => Some((input.substring_char(2, len), token)),
        None => None,
    }
}

/// Reads a literal at the beginning of the input: everything up to the
/// first `%`, if that is anything. Gives the rest of the input and the
/// token.
pub fn parse_literal<'a>(input: &'a str) -> (r: Option<(&'a str, FormatToken)>)
    ensures
        match r {
            Some((rest, token)) => leading_literal(input@) == Some(token@) && rest@
                == input@.skip(run_length(input@) as int),
            None => leading_literal(input@) is None,
        },
{
    let chars = chars_of(input);
    let mut end: usize = 0;
    while end < chars.len() && chars[end] != '%'
        invariant
            0 <= end <= chars@.len(),
            forall|i: int| 0 <= i < end ==> #[trigger] chars@[i] != '%',
        decreases chars@.len() - end,
    {
        end += 1;
    }
    proof {
        lemma_run_ends_at(chars@, end as int);
    }
    if end == 0 {
        None
    } else {
        let text = String::from_str(input.substring_char(0, end));
        Some((input.substring_char(end, chars.len()), FormatToken::Literal(text)))
    }
}

/// Reads one token at the beginning of the input: an escape, or else a
/// literal. Gives the rest of the input and the token.
pub fn parse_anything<'a>(input: &'a str) -> (r: Option<(&'a str, FormatToken)>)
    ensures
        match r {
            Some((rest, token)) => leading_token(input@) matches Some((t, taken)) && t == token@
                && rest@ == input@.skip(taken as int),
            None => leading_token(input@) is None,
        },
{
    match parse_format(input) {
        Some(found) => Some(found),
        None => parse_literal(input),
    }
}

/// Reads as many tokens as can be read from the beginning of the input.
/// Gives what is left of the input and the tokens. Nothing is left of a
/// format; what is left of anything else begins with the `%` that no token
/// could be made of.
pub fn parse_all<'a>(input: &'a str) -> (r: (&'a str, Vec<FormatToken>))
    ensures
        token_views(r.1@) == readable(input@).0,
        r.0@ == input@.skip(readable(input@).1 as int),
        readable(input@).1 <= input@.len(),
{
    let mut tokens: Vec<FormatToken> = Vec::new();
    let mut rest: &'a str = input;
    let ghost mut taken: nat = 0;
    proof {
        assert(input@.skip(0) == input@);
        assert(token_views(tokens@) == Seq::<Token>::empty());
        lemma_readable_stops_at_percent(input@);
    }
    loop
        invariant
            taken <= input@.len(),
            rest@ == input@.skip(taken as int),
            readable(input@).0 == token_views(tokens@) + readable(rest@).0,
            readable(input@).1 == taken + readable(rest@).1,
            readable(input@).1 <= input@.len(),
        ensures
            token_views(tokens@) == readable(input@).0,
            rest@ == input@.skip(readable(input@).1 as int),
        decreases input@.len() - taken,
    {
        proof {
            lemma_readable_step(rest@);
            lemma_leading_token_fits(rest@);
        }
        match parse_anything(rest) {
            Some((after, token)) => {
                proof {
                    let (t, n) = leading_token(rest@)->0;
                    assert(after@ == input@.skip((taken + n) as int));
                    let before = token_views(tokens@);
                    let longer = token_views(tokens@.push(token));
                    assert(longer == before + seq![t]);
                    assert(before + (seq![t] + readable(after@).0) == before + seq![t] + readable(
                        after@,
                    ).0);
                    taken = taken + n;
                }
                tokens.push(token);
                rest = after;
            },
            None => {
                proof {
                    assert(token_views(tokens@) + Seq::<Token>::empty() == token_views(tokens@));
                }
                break ;
            },
        }
    }
    (rest, tokens)
}

/// Parses a template. It is a format if every `%` in it begins an escape;
/// else the error says what is wrong with the first `%` that does not.
pub fn parse_format_string(input: &str) -> (r: Result<Format, String>)
    ensures
        match r {
            Ok(format) => parsed(input@) == Ok::<Seq<Token>, FormatFault>(format@),
            Err(message) => parsed(input@) matches Err(fault) && message@ == fault_text(fault),
        },
{
    let (rest, tokens) = parse_all(input);
    let left: usize = rest.unicode_len();
    if left == 0 {
        Ok(Format(tokens))
    } else if left == 1 {
        Err(String::from_str("Incorrectly terminated '%'"))
    } else {
        let ghost taken = readable(input@).1 as int;
        assert(rest@[1] == input@[taken + 1]);
        let mut message = String::from_str("Unknown format '%");
        message.append(rest.substring_char(1, 2));
        message.append("'");
        assert(rest@.subrange(1, 2) == seq![rest@[1]]);
        Err(message)
    }
}

impl HacksawResult {
    /// Writes the result out in a format: each token in turn, the fields in
    /// decimal, the geometry as `WxH+X+Y`, the literals as they are.
    pub fn fill_format_string(&self, format: &[FormatToken]) -> (text: String)
        ensures
            text@ == rendered(token_views(format@), *self),
    {
        let mut text = String::new();
        let mut i: usize = 0;
        let ghost tokens = token_views(format@);
        assert(tokens.take(0) == Seq::<Token>::empty());
        while i < format.len()
            invariant
                0 <= i <= format@.len(),
                tokens == token_views(format@),
                text@ == rendered(tokens.take(i as int), *self),
            decreases format@.len() - i,
        {
            let ghost before = text@;
            match &format[i] {
                FormatToken::WindowId => push_decimal(&mut text, self.window),
                FormatToken::Geometry => {
                    proof {
                        reveal_strlit("x");
                        reveal_strlit("+");
                    }
                    push_decimal(&mut text, self.width() as u32);
                    text.append("x");
                    push_decimal(&mut text, self.height() as u32);
                    text.append("+");
                    push_signed_decimal(&mut text, self.x());
                    text.append("+");
                    push_signed_decimal(&mut text, self.y());
                    assert("x"@ == seq!['x']);
                    assert("+"@ == seq!['+']);
                    assert(text@ == before + token_text(Token::Geometry, *self));
                },
                FormatToken::Width => push_decimal(&mut text, self.width() as u32),
                FormatToken::Height => push_decimal(&mut text, self.height() as u32),
                FormatToken::X => push_signed_decimal(&mut text, self.x()),
                FormatToken::Y => push_signed_decimal(&mut text, self.y()),
                FormatToken::Literal(s) => text.append(s.as_str()),
            }
            proof {
                let token = tokens[i as int];
                assert(token == format@[i as int]@);
                assert(text@ == before + token_text(token, *self));
                assert(tokens.take(i + 1) == tokens.take(i as int) + seq![token]);
                lemma_rendered_concat(tokens.take(i as int), seq![token], *self);
                assert(seq![token].skip(1) == Seq::<Token>::empty());
                assert(rendered(seq![token].skip(1), *self) == Seq::<char>::empty());
                assert(rendered(seq![token], *self) == token_text(token, *self));
            }
            i += 1;
        }
        assert(tokens.take(i as int) == tokens);
        text
    }
}

/// Writes a result out in a format.
pub fn fill_format_string(format: Vec<FormatToken>, result: HacksawResult) -> (text: String)
    ensures
        text@ == rendered(token_views(format@), result),
{
    result.fill_format_string(format.as_slice())
}

} // verus!
