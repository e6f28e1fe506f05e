//! Scanning a raw line of characters into lexical tokens.
//!
//! A single left-to-right pass classifies each character either as one of the
//! fixed single-character symbols (`= + - * / ^ ( )`) or as part of a pending
//! multi-character span. A span is closed by the next symbol or by the end of
//! the line; once trimmed of whitespace it becomes a number literal, the
//! keyword `quit`, or a variable name. An empty line yields the single
//! sentinel token `Invalid`.

use vstd::prelude::*;

verus! {

/// One lexical token. `VarName` and `Number` carry the trimmed span text;
/// `Number` holds the literal's characters rather than a parsed value, so
/// that turning it into a machine number can stay outside verified code.
#[derive(Debug, PartialEq, Eq)]
pub enum Token {
    Invalid,
    VarName(Vec<char>),
    Number(Vec<char>),
    Equals,
    Add,
    Sub,
    Mul,
    Div,
    Exp,
    LBracket,
    RBracket,
    Quit,
}

/// The mathematical image of a [`Token`]: payloads become character sequences.
pub enum TokenV {
    Invalid,
    VarName(Seq<char>),
    Number(Seq<char>),
    Equals,
    Add,
    Sub,
    Mul,
    Div,
    Exp,
    LBracket,
    RBracket,
    Quit,
}

impl View for Token {
    type V = TokenV;

    open spec fn view(&self) -> TokenV {
        match self {
            Token::Invalid => TokenV::Invalid,
            Token::VarName(s) => TokenV::VarName(s@),
            Token::Number(s) => TokenV::Number(s@),
            Token::Equals => TokenV::Equals,
            Token::Add => TokenV::Add,
            Token::Sub => TokenV::Sub,
            Token::Mul => TokenV::Mul,
            Token::Div => TokenV::Div,
            Token::Exp => TokenV::Exp,
            Token::LBracket => TokenV::LBracket,
            Token::RBracket => TokenV::RBracket,
            Token::Quit => TokenV::Quit,
        }
    }
}

/// The image of a whole token list.
pub open spec fn views(ts: Seq<Token>) -> Seq<TokenV> {
    ts.map_values(|t: Token| t@)
}

/// Two tokens are of the same kind when their tags match, payloads ignored.
pub open spec fn same_kind(a: TokenV, b: TokenV) -> bool {
    match (a, b) {
        (TokenV::Invalid, TokenV::Invalid) => true,
        (TokenV::VarName(_), TokenV::VarName(_)) => true,
        (TokenV::Number(_), TokenV::Number(_)) => true,
        (TokenV::Equals, TokenV::Equals) => true,
        (TokenV::Add, TokenV::Add) => true,
        (TokenV::Sub, TokenV::Sub) => true,
        (TokenV::Mul, TokenV::Mul) => true,
        (TokenV::Div, TokenV::Div) => true,
        (TokenV::Exp, TokenV::Exp) => true,
        (TokenV::LBracket, TokenV::LBracket) => true,
        (TokenV::RBracket, TokenV::RBracket) => true,
        (TokenV::Quit, TokenV::Quit) => true,
        _ => false,
    }
}

impl Token {
    /// Kind equality, used for the parser's grammar-expectation checks.
    pub fn same_type(&self, other: &Token) -> (r: bool)
        ensures
            r == same_kind(self@, other@),
    {
        match (self, other) {
            (Token::Invalid, Token::Invalid) => true,
            (Token::VarName(_), Token::VarName(_)) => true,
            (Token::Number(_), Token::Number(_)) => true,
            (Token::Equals, Token::Equals) => true,
            (Token::Add, Token::Add) => true,
            (Token::Sub, Token::Sub) => true,
            (Token::Mul, Token::Mul) => true,
            (Token::Div, Token::Div) => true,
            (Token::Exp, Token::Exp) => true,
            (Token::LBracket, Token::LBracket) => true,
            (Token::RBracket, Token::RBracket) => true,
            (Token::Quit, Token::Quit) => true,
            _ => false,
        }
    }

    /// An owned token with the same image, payload copied.
    pub fn duplicate(&self) -> (r: Token)
        ensures
            r@ == self@,
    {
        match self {
            Token::Invalid => Token::Invalid,
            Token::VarName(s) => Token::VarName(copy_chars(s)),
            Token::Number(s) => Token::Number(copy_chars(s)),
            Token::Equals => Token::Equals,
            Token::Add => Token::Add,
            Token::Sub => Token::Sub,
            Token::Mul => Token::Mul,
            Token::Div => Token::Div,
            Token::Exp => Token::Exp,
            Token::LBracket => Token::LBracket,
            Token::RBracket => Token::RBracket,
            Token::Quit => Token::Quit,
        }
    }
}

/// An owned copy of a character vector.
pub fn copy_chars(s: &Vec<char>) -> (r: Vec<char>)
    ensures
        r@ == s@,
{
    vstd::slice::slice_to_vec(s.as_slice())
}

/// The whitespace characters the tokenizer trims: exactly those with
/// Unicode's `White_Space` property — the ASCII whitespace controls and the
/// space, next line, no-break space, ogham space mark, the en, em and related
/// typographic spaces, the line and paragraph separators, the narrow no-break
/// and medium mathematical spaces, and the ideographic space.
pub open spec fn is_space_char(c: char) -> bool {
    c == '\t' || c == '\n' || c == '\u{b}' || c == '\u{c}' || c == '\r' || c == ' '
        || c == '\u{85}' || c == '\u{a0}' || c == '\u{1680}' || c == '\u{2000}'
        || c == '\u{2001}' || c == '\u{2002}' || c == '\u{2003}' || c == '\u{2004}'
        || c == '\u{2005}' || c == '\u{2006}' || c == '\u{2007}' || c == '\u{2008}'
        || c == '\u{2009}' || c == '\u{200a}' || c == '\u{2028}' || c == '\u{2029}'
        || c == '\u{202f}' || c == '\u{205f}' || c == '\u{3000}'
}

/// Runtime check for [`is_space_char`].
pub fn space_char(c: char) -> (r: bool)
    ensures
        r == is_space_char(c),
{
    c == '\t' || c == '\n' || c == '\u{b}' || c == '\u{c}' || c == '\r' || c == ' '
        || c == '\u{85}' || c == '\u{a0}' || c == '\u{1680}' || c == '\u{2000}'
        || c == '\u{2001}' || c == '\u{2002}' || c == '\u{2003}' || c == '\u{2004}'
        || c == '\u{2005}' || c == '\u{2006}' || c == '\u{2007}' || c == '\u{2008}'
        || c == '\u{2009}' || c == '\u{200a}' || c == '\u{2028}' || c == '\u{2029}'
        || c == '\u{202f}' || c == '\u{205f}' || c == '\u{3000}'
}

/// The decimal digits.
pub open spec fn is_digit_char(c: char) -> bool {
    '0' <= c && c <= '9'
}

/// Runtime check for [`is_digit_char`].
pub fn digit_char(c: char) -> (r: bool)
    ensures
        r == is_digit_char(c),
{
    '0' <= c && c <= '9'
}

/// A span is numeric when every character is a digit or a decimal point.
pub open spec fn spec_is_number(s: Seq<char>) -> bool {
    forall|i: int| 0 <= i < s.len() ==> is_digit_char(s[i]) || s[i] == '.'
}

/// Whether every character of `s` is a digit or a decimal point. True of the
/// empty span.
pub fn is_number(s: &[char]) -> (r: bool)
    ensures
        r == spec_is_number(s@),
{
    let mut i: usize = 0;
    while i < s.len()
        invariant
            0 <= i <= s@.len(),
            forall|j: int| 0 <= j < i ==> is_digit_char(s@[j]) || s@[j] == '.',
        decreases s@.len() - i,
    {
        let c = s[i];
        if !digit_char(c) && c != '.' {
            return false;
        }
        i = i + 1;
    }
    true
}

/// Index of the first character that stops a left-to-right whitespace scan
/// beginning at `i`: the first position at or after `i` holding a
/// non-whitespace character, or the end of the span.
pub open spec fn lead_end(s: Seq<char>, i: int) -> int
    decreases s.len() - i,
{
    if 0 <= i && i < s.len() && is_space_char(s[i]) {
        lead_end(s, i + 1)
    } else {
        i
    }
}

/// Index of the first character that stops a right-to-left whitespace scan
/// beginning at `i`: the first position at or below `i` holding a
/// non-whitespace character, stopping in any case at index 0.
pub open spec fn trail_start(s: Seq<char>, i: int) -> int
    decreases i,
{
    if 1 <= i && i < s.len() && is_space_char(s[i]) {
        trail_start(s, i - 1)
    } else {
        i
    }
}

/// A span with its leading and trailing whitespace removed.
pub open spec fn spec_trim(s: Seq<char>) -> Seq<char>
    recommends
        !spec_all_spaces(s),
{
    s.subrange(lead_end(s, 0), trail_start(s, s.len() - 1) + 1)
}

/// The subslice of `string` with leading and trailing whitespace removed.
pub fn trim(string: &[char]) -> (r: &[char])
    requires
        !spec_all_spaces(string@),
    ensures
        r@ == spec_trim(string@),
        r@.len() > 0,
        !is_space_char(r@[0]),
        !is_space_char(r@[r@.len() - 1]),
{
    assert(string@.len() > 0);
    let mut front_index: usize = 0;
    while front_index < string.len() && space_char(string[front_index])
        invariant
            0 <= front_index <= string@.len(),
            forall|j: int| 0 <= j < front_index ==> is_space_char(string@[j]),
            lead_end(string@, 0) == lead_end(string@, front_index as int),
        decreases string@.len() - front_index,
    {
        front_index = front_index + 1;
    }
    assert(front_index < string@.len() && !is_space_char(string@[front_index as int])) by {
        if front_index == string@.len() {
            assert(spec_all_spaces(string@));
        }
    }
    assert(lead_end(string@, 0) == front_index);

    let mut back_index: usize = string.len() - 1;
    while back_index >= 1 && space_char(string[back_index])
        invariant
            0 <= back_index < string@.len(),
            forall|j: int| back_index < j < string@.len() ==> is_space_char(string@[j]),
            trail_start(string@, string@.len() - 1) == trail_start(string@, back_index as int),
        decreases back_index,
    {
        back_index = back_index - 1;
    }
    assert(trail_start(string@, string@.len() - 1) == back_index);
    assert(front_index <= back_index) by {
        if back_index < front_index {
            assert(is_space_char(string@[front_index as int]));
        }
    }
    let r = vstd::slice::slice_subrange(string, front_index, back_index + 1);
    assert(!is_space_char(r@[0]) && !is_space_char(r@[r@.len() - 1])) by {
        if back_index >= 1 && is_space_char(string@[back_index as int]) {
            assert(trail_start(string@, back_index as int) == trail_start(
                string@,
                back_index as int - 1,
            ));
        }
    }
    r
}

/// How many decimal points a span holds.
pub open spec fn dot_count(s: Seq<char>) -> int
    decreases s.len(),
{
    if s.len() == 0 {
        0
    } else {
        dot_count(s.drop_last()) + if s.last() == '.' {
            1int
        } else {
            0int
        }
    }
}

/// Whether a span holds at least one decimal digit.
pub open spec fn has_digit(s: Seq<char>) -> bool {
    exists|i: int| 0 <= i < s.len() && is_digit_char(s[i])
}

/// A numeric span is a well-formed literal when it holds at most one decimal
/// point and at least one digit; exactly the digit-and-point spans that parse
/// as a decimal number.
pub open spec fn valid_number(s: Seq<char>) -> bool {
    dot_count(s) <= 1 && has_digit(s)
}

/// Runtime check for [`valid_number`].
pub fn check_number(s: &[char]) -> (r: bool)
    ensures
        r == valid_number(s@),
{
    let mut dots: usize = 0;
    let mut digit_seen: bool = false;
    let mut i: usize = 0;
    while i < s.len()
        invariant
            0 <= i <= s@.len(),
            dots <= i,
            dots == dot_count(s@.take(i as int)),
            digit_seen == exists|j: int| 0 <= j < i && is_digit_char(s@[j]),
        decreases s@.len() - i,
    {
        proof {
            assert(s@.take(i + 1).drop_last() =~= s@.take(i as int));
            assert(s@.take(i + 1).last() == s@[i as int]);
        }
        if s[i] == '.' {
            dots = dots + 1;
        } else if digit_char(s[i]) {
            digit_seen = true;
        }
        i = i + 1;
    }
    proof {
        assert(s@.take(i as int) =~= s@);
    }
    dots <= 1 && digit_seen
}

/// The four characters of the termination keyword.
pub open spec fn quit_word() -> Seq<char> {
    seq!['q', 'u', 'i', 't']
}

/// Whether a span spells the termination keyword exactly.
pub fn is_quit(s: &[char]) -> (r: bool)
    ensures
        r == (s@ == quit_word()),
{
    if s.len() == 4 {
        let r = s[0] == 'q' && s[1] == 'u' && s[2] == 'i' && s[3] == 't';
        proof {
            if r {
                assert(s@ =~= quit_word());
            }
        }
        r
    } else {
        false
    }
}

/// A span is blank when every character is whitespace. True of the empty span.
pub open spec fn spec_all_spaces(s: Seq<char>) -> bool {
    forall|i: int| 0 <= i < s.len() ==> is_space_char(s[i])
}

/// Whether every character of `s` is whitespace.
pub fn all_spaces(s: &[char]) -> (r: bool)
    ensures
        r == spec_all_spaces(s@),
{
    let mut i: usize = 0;
    while i < s.len()
        invariant
            0 <= i <= s@.len(),
            forall|j: int| 0 <= j < i ==> is_space_char(s@[j]),
        decreases s@.len() - i,
    {
        if !space_char(s[i]) {
            return false;
        }
        i = i + 1;
    }
    true
}

/// A malformed number literal: a digit-and-point span that is not a
/// well-formed literal (say, two decimal points, or a lone point). Fatal for
/// the current line; the session goes on.
#[derive(Debug)]
pub struct LexError {
    /// The trimmed offending span.
    pub literal: Vec<char>,
}

/// The token a single-character symbol stands for; `Invalid` marks a
/// character that is no symbol and so belongs to a pending span.
pub open spec fn symbol_token(c: char) -> TokenV {
    if c == '=' {
        TokenV::Equals
    } else if c == '+' {
        TokenV::Add
    } else if c == '-' {
        TokenV::Sub
    } else if c == '*' {
        TokenV::Mul
    } else if c == '/' {
        TokenV::Div
    } else if c == '^' {
        TokenV::Exp
    } else if c == '(' {
        TokenV::LBracket
    } else if c == ')' {
        TokenV::RBracket
    } else {
        TokenV::Invalid
    }
}

/// Runtime classification of one character, mirroring [`symbol_token`].
fn symbol_for(c: char) -> (t: Token)
    ensures
        t@ == symbol_token(c),
{
    match c {
        '=' => Token::Equals,
        '+' => Token::Add,
        '-' => Token::Sub,
        '*' => Token::Mul,
        '/' => Token::Div,
        '^' => Token::Exp,
        '(' => Token::LBracket,
        ')' => Token::RBracket,
        _ => Token::Invalid,
    }
}

/// What closing a pending span emits: nothing for a blank span, one token
/// otherwise, or the lexical error for a malformed number literal.
pub open spec fn span_token(span: Seq<char>) -> Result<Option<TokenV>, Seq<char>> {
    if spec_all_spaces(span) {
        Ok(None)
    } else {
        let t = spec_trim(span);
        if spec_is_number(t) {
            if valid_number(t) {
                Ok(Some(TokenV::Number(t)))
            } else {
                Err(t)
            }
        } else if t == quit_word() {
            Ok(Some(TokenV::Quit))
        } else {
            Ok(Some(TokenV::VarName(t)))
        }
    }
}

/// The image of an optional span start.
pub open spec fn opt_view(o: Option<usize>) -> Option<int> {
    match o {
        Option::None => Option::None,
        Option::Some(s) => Option::Some(s as int),
    }
}

/// One scan state of the tokenizer: position `i`, the start of the pending
/// span if one is open, and the tokens emitted so far. Equals the tokens of
/// the whole line once the scan runs to its end.
pub open spec fn spec_tok_loop(
    chars: Seq<char>,
    i: int,
    start: Option<int>,
    acc: Seq<TokenV>,
) -> Result<Seq<TokenV>, Seq<char>>
    decreases chars.len() - i,
{
    if i >= chars.len() {
        match start {
            Option::None => Ok(acc),
            Option::Some(s) => match span_token(chars.subrange(s, chars.len() as int)) {
                Ok(Option::None) => Ok(acc),
                Ok(Option::Some(t)) => Ok(acc.push(t)),
                Err(t) => Err(t),
            },
        }
    } else {
        let sym = symbol_token(chars[i]);
        if sym is Invalid {
            spec_tok_loop(
                chars,
                i + 1,
                if start is Some {
                    start
                } else {
                    Option::Some(i)
                },
                acc,
            )
        } else {
            match start {
                Option::None => spec_tok_loop(chars, i + 1, Option::None, acc.push(sym)),
                Option::Some(s) => match span_token(chars.subrange(s, i)) {
                    Ok(Option::None) => spec_tok_loop(chars, i + 1, Option::None, acc.push(sym)),
                    Ok(Option::Some(t)) => spec_tok_loop(
                        chars,
                        i + 1,
                        Option::None,
                        acc.push(t).push(sym),
                    ),
                    Err(t) => Err(t),
                },
            }
        }
    }
}

/// The tokens of one raw line, or the lexical error that aborts it. An empty
/// line yields the one-element sentinel sequence `[Invalid]`.
pub open spec fn spec_tokenize(chars: Seq<char>) -> Result<Seq<TokenV>, Seq<char>> {
    if chars.len() == 0 {
        Ok(seq![TokenV::Invalid])
    } else {
        spec_tok_loop(chars, 0, Option::None, Seq::empty())
    }
}

/// Mapping a token list commutes with appending one token.
pub proof fn lemma_views_push(ts: Seq<Token>, t: Token)
    ensures
        views(ts.push(t)) == views(ts).push(t@),
{
    assert(views(ts.push(t)) =~= views(ts).push(t@));
}

/// Closes the pending multi-character span, if one is open, emitting its
/// token: the span runs from `*start_index` up to (not including)
/// `current_index`, the position of the symbol or line end that closed it.
fn handle_last_token(
    result: &mut Vec<Token>,
    chars: &[char],
    start_index: &mut Option<usize>,
    current_index: usize,
) -> (r: Result<(), LexError>)
    requires
        current_index <= chars@.len(),
        *old(start_index) matches Option::Some(s) ==> s < current_index,
    ensures
        *final(start_index) is None,
        match *old(start_index) {
            Option::None => r is Ok && final(result)@ == old(result)@,
            Option::Some(s) => {
                let flushed = span_token(chars@.subrange(s as int, current_index as int));
                match flushed {
                    Ok(Option::None) => r is Ok && final(result)@ == old(result)@,
                    Ok(Option::Some(t)) => r is Ok && views(final(result)@) == views(
                        old(result)@,
                    ).push(t),
                    Err(t) => r matches Err(e) && e.literal@ == t && final(result)@ == old(
                        result,
                    )@,
                }
            },
        },
{
    match *start_index {
        Option::None => Ok(()),
        Option::Some(start) => {
            *start_index = Option::None;
            let span: &[char] = vstd::slice::slice_subrange(chars, start, current_index);
            if all_spaces(span) {
                Ok(())
            } else {
                let trimmed: &[char] = trim(span);
                if is_number(trimmed) {
                    if check_number(trimmed) {
                        let text: Vec<char> = vstd::slice::slice_to_vec(trimmed);
                        result.push(Token::Number(text));
                        proof {
                            lemma_views_push(old(result)@, result@.last());
                        }
                        Ok(())
                    } else {
                        Err(LexError { literal: vstd::slice::slice_to_vec(trimmed) })
                    }
                } else if is_quit(trimmed) {
                    result.push(Token::Quit);
                    proof {
                        lemma_views_push(old(result)@, Token::Quit);
                    }
                    Ok(())
                } else {
                    let text: Vec<char> = vstd::slice::slice_to_vec(trimmed);
                    result.push(Token::VarName(text));
                    proof {
                        lemma_views_push(old(result)@, result@.last());
                    }
                    Ok(())
                }
            }
        },
    }
}

/// Scans one raw line into its tokens, or reports the lexical error that
/// aborts the line. The characters arrive with the trailing line break
/// already removed; an empty line yields the single sentinel token `Invalid`.
pub fn tokenize(chars: Vec<char>) -> (r: Result<Vec<Token>, LexError>)
    ensures
        match spec_tokenize(chars@) {
            Ok(ts) => r matches Ok(v) && views(v@) == ts,
            Err(t) => r matches Err(e) && e.literal@ == t,
        },
{
    let mut result: Vec<Token> = Vec::new();

    if chars.len() != 0 {
        let mut start_index: Option<usize> = Option::None;
        let mut i: usize = 0;
        proof {
            assert(views(result@) =~= Seq::<TokenV>::empty());
        }
        while i < chars.len()
            invariant
                0 <= i <= chars@.len(),
                start_index matches Option::Some(s) ==> s < i,
                spec_tok_loop(chars@, i as int, opt_view(start_index), views(result@))
                    == spec_tokenize(chars@),
            decreases chars@.len() - i,
        {
            let c = chars[i];
            let tok = symbol_for(c);
            match tok {
                Token::Invalid => {
                    if start_index.is_none() {
                        start_index = Option::Some(i);
                    }
                },
                _ => {
                    match handle_last_token(&mut result, chars.as_slice(), &mut start_index, i) {
                        Ok(()) => {},
                        Err(e) => {
                            return Err(e);
                        },
                    }
                    let ghost mid = result@;
                    result.push(tok);
                    proof {
                        lemma_views_push(mid, result@.last());
                    }
                },
            }
            i = i + 1;
        }
        if start_index.is_some() {
            match handle_last_token(&mut result, chars.as_slice(), &mut start_index, chars.len()) {
                Ok(()) => {},
                Err(e) => {
                    return Err(e);
                },
            }
        }
    } else {
        result.push(Token::Invalid);
        proof {
            assert(views(result@) =~= seq![TokenV::Invalid]);
        }
    }

    Ok(result)
}

} // verus!
