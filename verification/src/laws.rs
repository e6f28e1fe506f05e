//! The laws the library obeys, each proved from the specification functions
//! that the tokenizer's and parser's contracts are stated over.

use vstd::prelude::*;

use crate::parser::atom_expected;
use crate::parser::spec_add_sub;
use crate::parser::spec_add_sub_rest;
use crate::parser::spec_exp;
use crate::parser::spec_exp_rest;
use crate::parser::spec_mul_div;
use crate::parser::spec_translation_unit;
use crate::parser::spec_unary;
use crate::parser::spec_val;
use crate::parser::token_at;
use crate::parser::ErrV;
use crate::parser::ExprV;
use crate::parser::OutcomeV;
use crate::tokenizer::is_space_char;
use crate::tokenizer::quit_word;
use crate::tokenizer::span_token;
use crate::tokenizer::spec_all_spaces;
use crate::tokenizer::spec_is_number;
use crate::tokenizer::spec_tok_loop;
use crate::tokenizer::spec_tokenize;
use crate::tokenizer::spec_trim;
use crate::tokenizer::symbol_token;
use crate::tokenizer::valid_number;
use crate::tokenizer::TokenV;

verus! {

/// A line that holds no symbol character forms one single span: tokenizing it
/// yields no token when the span is blank, exactly the span's one token
/// otherwise, or the span's lexical error.
pub proof fn lemma_single_span_line(chars: Seq<char>)
    requires
        chars.len() > 0,
        forall|j: int| 0 <= j < chars.len() ==> symbol_token(chars[j]) is Invalid,
    ensures
        match span_token(chars) {
            Ok(opt) => match opt {
                Option::None => spec_tokenize(chars) == Ok::<Seq<TokenV>, Seq<char>>(
                    Seq::<TokenV>::empty(),
                ),
                Option::Some(t) => spec_tokenize(chars) == Ok::<Seq<TokenV>, Seq<char>>(seq![t]),
            },
            Err(t) => spec_tokenize(chars) == Err::<Seq<TokenV>, Seq<char>>(t),
        },
{
    assert(spec_tokenize(chars) == spec_tok_loop(chars, 1, Option::Some(0int), Seq::empty()));
    lemma_span_only_loop(chars, 1);
}

/// The scan state after `i` symbol-free characters: the pending span opened at
/// the line's start and nothing has been emitted, so the line's tokens are
/// whatever flushing the whole line as one span emits.
proof fn lemma_span_only_loop(chars: Seq<char>, i: int)
    requires
        1 <= i <= chars.len(),
        forall|j: int| 0 <= j < chars.len() ==> symbol_token(chars[j]) is Invalid,
    ensures
        ({
            let r = spec_tok_loop(chars, i, Option::Some(0int), Seq::empty());
            match span_token(chars) {
                Ok(opt) => match opt {
                    Option::None => r == Ok::<Seq<TokenV>, Seq<char>>(Seq::<TokenV>::empty()),
                    Option::Some(t) => r == Ok::<Seq<TokenV>, Seq<char>>(seq![t]),
                },
                Err(t) => r == Err::<Seq<TokenV>, Seq<char>>(t),
            }
        }),
    decreases chars.len() - i,
{
    if i == chars.len() {
        assert(chars.subrange(0, chars.len() as int) =~= chars);
        assert(Seq::<TokenV>::empty().push(span_token(chars)->Ok_0->Some_0) =~= seq![
            span_token(chars)->Ok_0->Some_0,
        ]);
    } else {
        lemma_span_only_loop(chars, i + 1);
    }
}

/// Tokenizing an empty or all-whitespace line yields input the parser treats
/// as empty — the sentinel `Invalid` for the empty line, no token at all for
/// a blank one; neither a variable nor a number — and parsing it fails with a
/// grammar error naming the kinds an atom may begin with, whatever the table
/// holds.
pub proof fn lemma_blank_line(chars: Seq<char>, tbl: Map<Seq<char>, ExprV>)
    requires
        forall|j: int| 0 <= j < chars.len() ==> is_space_char(chars[j]),
    ensures
        chars.len() == 0 ==> spec_tokenize(chars) == Ok::<Seq<TokenV>, Seq<char>>(
            seq![TokenV::Invalid],
        ),
        chars.len() > 0 ==> spec_tokenize(chars) == Ok::<Seq<TokenV>, Seq<char>>(
            Seq::<TokenV>::empty(),
        ),
        spec_translation_unit(spec_tokenize(chars)->Ok_0, 0, tbl) == Err::<OutcomeV, ErrV>(
            ErrV::Unexpected { got: TokenV::Invalid, expected: atom_expected() },
        ),
{
    if chars.len() > 0 {
        assert(forall|j: int| 0 <= j < chars.len() ==> symbol_token(chars[j]) is Invalid);
        assert(spec_all_spaces(chars));
        lemma_single_span_line(chars);
    }
    let toks = spec_tokenize(chars)->Ok_0;
    assert(token_at(toks, 0) == TokenV::Invalid);
    lemma_empty_input_rejected(toks, tbl);
}

/// A token list whose first token is the `Invalid` sentinel is rejected with
/// the atom expectation, whatever the table holds.
proof fn lemma_empty_input_rejected(toks: Seq<TokenV>, tbl: Map<Seq<char>, ExprV>)
    requires
        token_at(toks, 0) == TokenV::Invalid,
    ensures
        spec_translation_unit(toks, 0, tbl) == Err::<OutcomeV, ErrV>(
            ErrV::Unexpected { got: TokenV::Invalid, expected: atom_expected() },
        ),
{
}

/// A line whose first token is `quit` requests termination, whatever the
/// variable table holds and whatever follows on the line.
pub proof fn lemma_quit_terminates(toks: Seq<TokenV>, tbl: Map<Seq<char>, ExprV>)
    requires
        token_at(toks, 0) is Quit,
    ensures
        spec_translation_unit(toks, 0, tbl) == Ok::<OutcomeV, ErrV>(OutcomeV::Quit),
{
}

/// What a closed non-blank span becomes, exhaustively: the keyword token only
/// for the exact word `quit`; a number token only for a well-formed literal;
/// the lexical error only for a malformed one; and a variable-name token for
/// everything else — so a near-miss such as a wrongly-cased or suffixed
/// `quit` is a variable name, not a request to terminate.
pub proof fn lemma_span_classification(span: Seq<char>)
    requires
        !spec_all_spaces(span),
    ensures
        ({
            let t = spec_trim(span);
            &&& (spec_is_number(t) && valid_number(t)) ==> span_token(span) == Ok::<
                Option<TokenV>,
                Seq<char>,
            >(Option::Some(TokenV::Number(t)))
            &&& (spec_is_number(t) && !valid_number(t)) ==> span_token(span) == Err::<
                Option<TokenV>,
                Seq<char>,
            >(t)
            &&& (!spec_is_number(t) && t == quit_word()) ==> span_token(span) == Ok::<
                Option<TokenV>,
                Seq<char>,
            >(Option::Some(TokenV::Quit))
            &&& (!spec_is_number(t) && t != quit_word()) ==> span_token(span) == Ok::<
                Option<TokenV>,
                Seq<char>,
            >(Option::Some(TokenV::VarName(t)))
        }),
{
}

/// A token either is no number literal or is a well-formed one.
pub open spec fn number_ok(t: TokenV) -> bool {
    t matches TokenV::Number(x) ==> valid_number(x)
}

/// Every number token of a successfully tokenized line is a well-formed
/// literal — at most one decimal point, at least one digit — which is why
/// folding the parsed tree into a number never meets an unparsable leaf.
pub proof fn lemma_number_tokens_well_formed(chars: Seq<char>)
    ensures
        spec_tokenize(chars) matches Ok(ts) ==> forall|k: int|
            0 <= k < ts.len() ==> number_ok(#[trigger] ts[k]),
{
    if chars.len() > 0 {
        lemma_tok_loop_numbers(chars, 0, Option::None, Seq::empty());
    }
}

/// The scan keeps the emitted tokens' number literals well-formed: a span
/// emits a number token only after checking its literal, and a symbol is
/// never a number token.
proof fn lemma_tok_loop_numbers(chars: Seq<char>, i: int, start: Option<int>, acc: Seq<TokenV>)
    requires
        forall|k: int| 0 <= k < acc.len() ==> number_ok(#[trigger] acc[k]),
    ensures
        spec_tok_loop(chars, i, start, acc) matches Ok(ts) ==> forall|k: int|
            0 <= k < ts.len() ==> number_ok(#[trigger] ts[k]),
    decreases chars.len() - i,
{
    if i >= chars.len() {
    } else {
        let sym = symbol_token(chars[i]);
        if sym is Invalid {
            lemma_tok_loop_numbers(
                chars,
                i + 1,
                if start is Some {
                    start
                } else {
                    Option::Some(i)
                },
                acc,
            );
        } else {
            match start {
                Option::None => {
                    lemma_tok_loop_numbers(chars, i + 1, Option::None, acc.push(sym));
                },
                Option::Some(s) => {
                    match span_token(chars.subrange(s, i)) {
                        Ok(Option::None) => {
                            lemma_tok_loop_numbers(chars, i + 1, Option::None, acc.push(sym));
                        },
                        Ok(Option::Some(t)) => {
                            lemma_tok_loop_numbers(
                                chars,
                                i + 1,
                                Option::None,
                                acc.push(t).push(sym),
                            );
                        },
                        Err(_) => {},
                    }
                },
            }
        }
    }
}

/// Assigning a name twice leaves the table exactly as if only the second
/// assignment had happened: the earlier binding is overwritten, never kept
/// beside the newer one.
pub proof fn lemma_reassign_overwrites(
    tbl: Map<Seq<char>, ExprV>,
    n: Seq<char>,
    v1: ExprV,
    v2: ExprV,
)
    ensures
        tbl.insert(n, v1).insert(n, v2) == tbl.insert(n, v2),
{
    assert(tbl.insert(n, v1).insert(n, v2) =~= tbl.insert(n, v2));
}

/// The table after a run of assignments binding one name to each tree of
/// `vs` in turn, oldest first.
pub open spec fn insert_all(
    tbl: Map<Seq<char>, ExprV>,
    n: Seq<char>,
    vs: Seq<ExprV>,
) -> Map<Seq<char>, ExprV>
    decreases vs.len(),
{
    if vs.len() == 0 {
        tbl
    } else {
        insert_all(tbl, n, vs.drop_last()).insert(n, vs.last())
    }
}

/// Any run of assignments to one name leaves the table exactly as if only
/// the most recent had happened. The tables being equal, every later
/// expression referencing the name parses against the most recently assigned
/// tree; in particular a line that is just the name yields exactly that
/// tree.
pub proof fn lemma_assignment_sequence(tbl: Map<Seq<char>, ExprV>, n: Seq<char>, vs: Seq<ExprV>)
    requires
        vs.len() > 0,
    ensures
        insert_all(tbl, n, vs) == tbl.insert(n, vs.last()),
        spec_translation_unit(seq![TokenV::VarName(n)], 0, insert_all(tbl, n, vs)) == Ok::<
            OutcomeV,
            ErrV,
        >(OutcomeV::Value(vs.last())),
{
    lemma_insert_all_collapses(tbl, n, vs);
    lemma_name_line_yields_binding(n, tbl.insert(n, vs.last()));
}

/// A run of inserts of one name denotes the same mapping as the last insert
/// alone.
proof fn lemma_insert_all_collapses(tbl: Map<Seq<char>, ExprV>, n: Seq<char>, vs: Seq<ExprV>)
    requires
        vs.len() > 0,
    ensures
        insert_all(tbl, n, vs) == tbl.insert(n, vs.last()),
    decreases vs.len(),
{
    if vs.len() == 1 {
        assert(vs.drop_last().len() == 0);
        assert(insert_all(tbl, n, vs.drop_last()) == tbl);
    } else {
        lemma_insert_all_collapses(tbl, n, vs.drop_last());
        lemma_reassign_overwrites(tbl, n, vs.drop_last().last(), vs.last());
    }
}

/// A line that is just a bound name yields exactly the bound tree.
proof fn lemma_name_line_yields_binding(n: Seq<char>, tbl: Map<Seq<char>, ExprV>)
    requires
        tbl.contains_key(n),
    ensures
        spec_translation_unit(seq![TokenV::VarName(n)], 0, tbl) == Ok::<OutcomeV, ErrV>(
            OutcomeV::Value(tbl[n]),
        ),
{
    let toks = seq![TokenV::VarName(n)];
    assert(token_at(toks, 0) == TokenV::VarName(n));
    assert(token_at(toks, 1) == TokenV::Invalid);
    assert(spec_val(toks, 0, tbl) == Ok::<(ExprV, int), ErrV>((tbl[n], 1)));
}

/// A leading minus negates the result of the whole exponentiation expression
/// that follows it, whatever that expression is: parsing `- e` consumes the
/// same tokens as parsing `e` and wraps its whole tree in one negation — it
/// never negates just the first operand.
pub proof fn lemma_unary_minus_negates_whole_exponential(
    toks: Seq<TokenV>,
    i: int,
    tbl: Map<Seq<char>, ExprV>,
)
    requires
        token_at(toks, i) is Sub,
    ensures
        spec_unary(toks, i, tbl) == match spec_exp(toks, i + 1, tbl) {
            Ok(p) => Ok::<(ExprV, int), ErrV>((ExprV::Neg(Box::new(p.0)), p.1)),
            Err(e) => Err::<(ExprV, int), ErrV>(e),
        },
{
}

/// A line that is just an unassigned name fails with the unbound-variable
/// error carrying that name.
pub proof fn lemma_unbound_variable(n: Seq<char>, tbl: Map<Seq<char>, ExprV>)
    requires
        !tbl.contains_key(n),
    ensures
        spec_translation_unit(seq![TokenV::VarName(n)], 0, tbl) == Err::<OutcomeV, ErrV>(
            ErrV::UnboundVariable { name: n },
        ),
{
    let toks = seq![TokenV::VarName(n)];
    assert(token_at(toks, 0) == TokenV::VarName(n));
    assert(token_at(toks, 1) == TokenV::Invalid);
}

/// Chained exponentiation groups to the left: `a ^ b ^ c` parses as
/// `(a ^ b) ^ c`, for any number literals and any table.
pub proof fn lemma_power_left_associative(
    a: Seq<char>,
    b: Seq<char>,
    c: Seq<char>,
    tbl: Map<Seq<char>, ExprV>,
)
    ensures
        spec_val(
            seq![
                TokenV::Number(a),
                TokenV::Exp,
                TokenV::Number(b),
                TokenV::Exp,
                TokenV::Number(c),
            ],
            0,
            tbl,
        ) == Ok::<(ExprV, int), ErrV>(
            (
                ExprV::Pow(
                    Box::new(ExprV::Pow(Box::new(ExprV::Lit(a)), Box::new(ExprV::Lit(b)))),
                    Box::new(ExprV::Lit(c)),
                ),
                5,
            ),
        ),
{
    let toks = seq![
        TokenV::Number(a),
        TokenV::Exp,
        TokenV::Number(b),
        TokenV::Exp,
        TokenV::Number(c),
    ];
    assert(token_at(toks, 0) == TokenV::Number(a));
    assert(token_at(toks, 1) == TokenV::Exp);
    assert(token_at(toks, 2) == TokenV::Number(b));
    assert(token_at(toks, 3) == TokenV::Exp);
    assert(token_at(toks, 4) == TokenV::Number(c));
    assert(token_at(toks, 5) == TokenV::Invalid);
    let ab = ExprV::Pow(Box::new(ExprV::Lit(a)), Box::new(ExprV::Lit(b)));
    let abc = ExprV::Pow(Box::new(ab), Box::new(ExprV::Lit(c)));
    assert(spec_exp_rest(toks, 5, abc, tbl) == Ok::<(ExprV, int), ErrV>((abc, 5)));
    assert(spec_exp_rest(toks, 3, ab, tbl) == Ok::<(ExprV, int), ErrV>((abc, 5)));
    assert(spec_exp_rest(toks, 1, ExprV::Lit(a), tbl) == Ok::<(ExprV, int), ErrV>((abc, 5)));
    assert(spec_exp(toks, 0, tbl) == Ok::<(ExprV, int), ErrV>((abc, 5)));
    assert(spec_mul_div(toks, 0, tbl) == Ok::<(ExprV, int), ErrV>((abc, 5)));
    assert(spec_add_sub(toks, 0, tbl) == Ok::<(ExprV, int), ErrV>((abc, 5)));
}

/// Subtraction groups to the left: `a - b - c` parses as `(a - b) - c`, for
/// any number literals and any table.
pub proof fn lemma_sub_left_associative(
    a: Seq<char>,
    b: Seq<char>,
    c: Seq<char>,
    tbl: Map<Seq<char>, ExprV>,
)
    ensures
        spec_val(
            seq![
                TokenV::Number(a),
                TokenV::Sub,
                TokenV::Number(b),
                TokenV::Sub,
                TokenV::Number(c),
            ],
            0,
            tbl,
        ) == Ok::<(ExprV, int), ErrV>(
            (
                ExprV::Sub(
                    Box::new(ExprV::Sub(Box::new(ExprV::Lit(a)), Box::new(ExprV::Lit(b)))),
                    Box::new(ExprV::Lit(c)),
                ),
                5,
            ),
        ),
{
    let toks = seq![
        TokenV::Number(a),
        TokenV::Sub,
        TokenV::Number(b),
        TokenV::Sub,
        TokenV::Number(c),
    ];
    assert(token_at(toks, 0) == TokenV::Number(a));
    assert(token_at(toks, 1) == TokenV::Sub);
    assert(token_at(toks, 2) == TokenV::Number(b));
    assert(token_at(toks, 3) == TokenV::Sub);
    assert(token_at(toks, 4) == TokenV::Number(c));
    assert(token_at(toks, 5) == TokenV::Invalid);
    let ab = ExprV::Sub(Box::new(ExprV::Lit(a)), Box::new(ExprV::Lit(b)));
    let abc = ExprV::Sub(Box::new(ab), Box::new(ExprV::Lit(c)));
    assert(spec_mul_div(toks, 0, tbl) == Ok::<(ExprV, int), ErrV>((ExprV::Lit(a), 1)));
    assert(spec_mul_div(toks, 2, tbl) == Ok::<(ExprV, int), ErrV>((ExprV::Lit(b), 3)));
    assert(spec_mul_div(toks, 4, tbl) == Ok::<(ExprV, int), ErrV>((ExprV::Lit(c), 5)));
    assert(spec_add_sub_rest(toks, 5, abc, tbl) == Ok::<(ExprV, int), ErrV>((abc, 5)));
    assert(spec_add_sub_rest(toks, 3, ab, tbl) == Ok::<(ExprV, int), ErrV>((abc, 5)));
    assert(spec_add_sub_rest(toks, 1, ExprV::Lit(a), tbl) == Ok::<(ExprV, int), ErrV>((abc, 5)));
    assert(spec_add_sub(toks, 0, tbl) == Ok::<(ExprV, int), ErrV>((abc, 5)));
}

/// A leading minus binds looser than exponentiation: `- a ^ b` parses as
/// `-(a ^ b)`, not `(-a) ^ b`, for any number literals and any table.
pub proof fn lemma_unary_minus_binds_looser(a: Seq<char>, b: Seq<char>, tbl: Map<Seq<char>, ExprV>)
    ensures
        spec_val(
            seq![TokenV::Sub, TokenV::Number(a), TokenV::Exp, TokenV::Number(b)],
            0,
            tbl,
        ) == Ok::<(ExprV, int), ErrV>(
            (
                ExprV::Neg(
                    Box::new(ExprV::Pow(Box::new(ExprV::Lit(a)), Box::new(ExprV::Lit(b)))),
                ),
                4,
            ),
        ),
{
    let toks = seq![TokenV::Sub, TokenV::Number(a), TokenV::Exp, TokenV::Number(b)];
    assert(token_at(toks, 0) == TokenV::Sub);
    assert(token_at(toks, 1) == TokenV::Number(a));
    assert(token_at(toks, 2) == TokenV::Exp);
    assert(token_at(toks, 3) == TokenV::Number(b));
    assert(token_at(toks, 4) == TokenV::Invalid);
}

} // verus!

