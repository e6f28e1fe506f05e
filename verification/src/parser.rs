//! Recursive-descent parsing and symbolic evaluation.
//!
//! The grammar, lowest precedence first:
//!
//! ```text
//! translation_unit := quit | var_assignment | val_expr
//! var_assignment   := VAR_NAME "=" val_expr
//! val_expr         := add_sub_expr
//! add_sub_expr     := mul_div_expr (("+" | "-") mul_div_expr)*
//! mul_div_expr     := unary_expr (("*" | "/") unary_expr)*
//! unary_expr       := "-"? exp_expr
//! exp_expr         := atom ("^" atom)*
//! atom             := NUM | VAR_NAME | "(" val_expr ")"
//! ```
//!
//! All binary layers are left-associative, exponentiation included, and a
//! leading minus negates a whole `exp_expr`. The parser walks the token list
//! with an index cursor and never backtracks: one token of lookahead decides
//! every branch. Parsing an expression yields a closed [`Expr`] tree; parsing
//! an assignment binds the name to the tree of its right-hand side in the
//! persistent variable table.

use vstd::prelude::*;

use crate::tokenizer::copy_chars;
use crate::tokenizer::same_kind;
use crate::tokenizer::views;
use crate::tokenizer::Token;
use crate::tokenizer::TokenV;

verus! {

/// A closed arithmetic expression: the result of parsing one line. Leaves are
/// the character texts of number literals; a variable reference is replaced at
/// parse time by the tree bound to the name, so no leaf mentions a name.
pub enum Expr {
    /// A number literal, kept as its trimmed text.
    Lit(Vec<char>),
    /// Negation of a whole subexpression.
    Neg(Box<Expr>),
    /// Sum of two subexpressions.
    Add(Box<Expr>, Box<Expr>),
    /// Difference of two subexpressions.
    Sub(Box<Expr>, Box<Expr>),
    /// Product of two subexpressions.
    Mul(Box<Expr>, Box<Expr>),
    /// Quotient of two subexpressions.
    Div(Box<Expr>, Box<Expr>),
    /// Power of two subexpressions.
    Pow(Box<Expr>, Box<Expr>),
}

/// The mathematical image of an [`Expr`].
pub enum ExprV {
    Lit(Seq<char>),
    Neg(Box<ExprV>),
    Add(Box<ExprV>, Box<ExprV>),
    Sub(Box<ExprV>, Box<ExprV>),
    Mul(Box<ExprV>, Box<ExprV>),
    Div(Box<ExprV>, Box<ExprV>),
    Pow(Box<ExprV>, Box<ExprV>),
}

/// The image of an expression tree.
pub open spec fn expr_view(e: Expr) -> ExprV
    decreases e,
{
    match e {
        Expr::Lit(t) => ExprV::Lit(t@),
        Expr::Neg(a) => ExprV::Neg(Box::new(expr_view(*a))),
        Expr::Add(a, b) => ExprV::Add(Box::new(expr_view(*a)), Box::new(expr_view(*b))),
        Expr::Sub(a, b) => ExprV::Sub(Box::new(expr_view(*a)), Box::new(expr_view(*b))),
        Expr::Mul(a, b) => ExprV::Mul(Box::new(expr_view(*a)), Box::new(expr_view(*b))),
        Expr::Div(a, b) => ExprV::Div(Box::new(expr_view(*a)), Box::new(expr_view(*b))),
        Expr::Pow(a, b) => ExprV::Pow(Box::new(expr_view(*a)), Box::new(expr_view(*b))),
    }
}

impl Expr {
    /// An owned tree with the same image.
    pub fn duplicate(&self) -> (r: Expr)
        ensures
            expr_view(r) == expr_view(*self),
        decreases *self,
    {
        match self {
            Expr::Lit(t) => Expr::Lit(copy_chars(t)),
            Expr::Neg(a) => Expr::Neg(Box::new(a.duplicate())),
            Expr::Add(a, b) => Expr::Add(Box::new(a.duplicate()), Box::new(b.duplicate())),
            Expr::Sub(a, b) => Expr::Sub(Box::new(a.duplicate()), Box::new(b.duplicate())),
            Expr::Mul(a, b) => Expr::Mul(Box::new(a.duplicate()), Box::new(b.duplicate())),
            Expr::Div(a, b) => Expr::Div(Box::new(a.duplicate()), Box::new(b.duplicate())),
            Expr::Pow(a, b) => Expr::Pow(Box::new(a.duplicate()), Box::new(b.duplicate())),
        }
    }
}

/// A failure while parsing one line. Grammar failures name the token kinds the
/// grammar would have accepted and the token found instead; a reference to a
/// name the table does not bind names the variable. Either way the line is
/// abandoned and the variable table is left as it was.
pub enum ParserError {
    /// The cursor's token is of no kind the grammar accepts here.
    Unexpected { got: Token, expected: Vec<Token> },
    /// An atom referenced a variable name with no binding.
    UnboundVariable { name: Vec<char> },
}

/// The mathematical image of a [`ParserError`].
pub enum ErrV {
    Unexpected { got: TokenV, expected: Seq<TokenV> },
    UnboundVariable { name: Seq<char> },
}

/// The image of a parser error.
pub open spec fn err_view(e: ParserError) -> ErrV {
    match e {
        ParserError::Unexpected { got, expected } => ErrV::Unexpected {
            got: got@,
            expected: views(expected@),
        },
        ParserError::UnboundVariable { name } => ErrV::UnboundVariable { name: name@ },
    }
}

/// What one successfully parsed line produced: a value to show, a change to
/// the variable table, or the request to end the session.
pub enum ParserResult {
    /// The line was an expression; here is its tree.
    Value(Expr),
    /// The line was an assignment and the table has been updated.
    VarAssign,
    /// The line began with `quit`.
    Quit,
}

/// The mathematical image of one line's outcome; an assignment shows the name
/// and the bound tree that [`ParserResult::VarAssign`] put into the table.
pub enum OutcomeV {
    Value(ExprV),
    VarAssign(Seq<char>, ExprV),
    Quit,
}

/// The token the cursor sees at position `i`: past either end of the list
/// the cursor yields `Invalid`, which no grammar rule accepts, so running off
/// the end surfaces as an ordinary grammar failure.
pub open spec fn token_at(toks: Seq<TokenV>, i: int) -> TokenV {
    if 0 <= i && i < toks.len() {
        toks[i]
    } else {
        TokenV::Invalid
    }
}

/// How many tokens are left at position `i`; the termination measure of the
/// grammar walk.
pub open spec fn remaining(toks: Seq<TokenV>, i: int) -> int {
    if i <= toks.len() {
        toks.len() - i
    } else {
        0
    }
}

/// The position a sub-parse ending at `k` hands back to a parse that stood at
/// `j`: `k` itself whenever `k` lies properly between `j` and the end, as a
/// successful sub-parse guarantees. The fallback `j + 1` never describes a
/// real parse; it only keeps the position moving rightwards, which makes the
/// grammar walk visibly terminating.
pub open spec fn step_to(j: int, k: int, len: int) -> int {
    if j < k && k <= len {
        k
    } else {
        j + 1
    }
}

/// The token kinds an atom may begin with, as shown in grammar failures.
pub open spec fn atom_expected() -> Seq<TokenV> {
    seq![TokenV::VarName(Seq::empty()), TokenV::Number(Seq::empty()), TokenV::LBracket]
}

/// Parses an atom at `i`: a number literal, a bound variable name (replaced
/// by the table's tree; an unbound one fails), or a bracketed expression.
pub open spec fn spec_atom(toks: Seq<TokenV>, i: int, tbl: Map<Seq<char>, ExprV>) -> Result<
    (ExprV, int),
    ErrV,
>
    decreases remaining(toks, i), 1int,
{
    match token_at(toks, i) {
        TokenV::VarName(n) => if tbl.contains_key(n) {
            Ok((tbl[n], i + 1))
        } else {
            Err(ErrV::UnboundVariable { name: n })
        },
        TokenV::Number(t) => Ok((ExprV::Lit(t), i + 1)),
        TokenV::LBracket => spec_bracket(toks, i, tbl),
        t => Err(ErrV::Unexpected { got: t, expected: atom_expected() }),
    }
}

/// Parses `"(" val_expr ")"` at `i`.
pub open spec fn spec_bracket(toks: Seq<TokenV>, i: int, tbl: Map<Seq<char>, ExprV>) -> Result<
    (ExprV, int),
    ErrV,
>
    decreases remaining(toks, i), 0int,
{
    if !(token_at(toks, i) is LBracket) {
        Err(ErrV::Unexpected { got: token_at(toks, i), expected: seq![TokenV::LBracket] })
    } else {
        match spec_val(toks, i + 1, tbl) {
            Err(e) => Err(e),
            Ok(p) => if token_at(toks, p.1) is RBracket {
                Ok((p.0, p.1 + 1))
            } else {
                Err(
                    ErrV::Unexpected {
                        got: token_at(toks, p.1),
                        expected: seq![TokenV::RBracket],
                    },
                )
            },
        }
    }
}

/// Parses `atom ("^" atom)*` at `i`: left-associative exponentiation.
pub open spec fn spec_exp(toks: Seq<TokenV>, i: int, tbl: Map<Seq<char>, ExprV>) -> Result<
    (ExprV, int),
    ErrV,
>
    decreases remaining(toks, i), 3int,
{
    match spec_atom(toks, i, tbl) {
        Err(e) => Err(e),
        Ok(p) => spec_exp_rest(toks, step_to(i, p.1, toks.len() as int), p.0, tbl),
    }
}

/// Folds further `"^" atom` steps into `acc`, grouping to the left.
pub open spec fn spec_exp_rest(
    toks: Seq<TokenV>,
    j: int,
    acc: ExprV,
    tbl: Map<Seq<char>, ExprV>,
) -> Result<(ExprV, int), ErrV>
    decreases remaining(toks, j), 2int,
{
    if token_at(toks, j) is Exp {
        match spec_atom(toks, j + 1, tbl) {
            Err(e) => Err(e),
            Ok(p) => spec_exp_rest(
                toks,
                step_to(j, p.1, toks.len() as int),
                ExprV::Pow(Box::new(acc), Box::new(p.0)),
                tbl,
            ),
        }
    } else {
        Ok((acc, j))
    }
}

/// Parses `"-"? exp_expr` at `i`: one leading minus negates the whole
/// exponentiation expression that follows it.
pub open spec fn spec_unary(toks: Seq<TokenV>, i: int, tbl: Map<Seq<char>, ExprV>) -> Result<
    (ExprV, int),
    ErrV,
>
    decreases remaining(toks, i), 4int,
{
    if token_at(toks, i) is Sub {
        match spec_exp(toks, i + 1, tbl) {
            Err(e) => Err(e),
            Ok(p) => Ok((ExprV::Neg(Box::new(p.0)), p.1)),
        }
    } else {
        spec_exp(toks, i, tbl)
    }
}

/// Parses `unary_expr (("*" | "/") unary_expr)*` at `i`.
pub open spec fn spec_mul_div(toks: Seq<TokenV>, i: int, tbl: Map<Seq<char>, ExprV>) -> Result<
    (ExprV, int),
    ErrV,
>
    decreases remaining(toks, i), 6int,
{
    match spec_unary(toks, i, tbl) {
        Err(e) => Err(e),
        Ok(p) => spec_mul_div_rest(toks, step_to(i, p.1, toks.len() as int), p.0, tbl),
    }
}

/// Folds further `("*" | "/") unary_expr` steps into `acc`, grouping to the
/// left.
pub open spec fn spec_mul_div_rest(
    toks: Seq<TokenV>,
    j: int,
    acc: ExprV,
    tbl: Map<Seq<char>, ExprV>,
) -> Result<(ExprV, int), ErrV>
    decreases remaining(toks, j), 5int,
{
    let t = token_at(toks, j);
    if t is Mul || t is Div {
        match spec_unary(toks, j + 1, tbl) {
            Err(e) => Err(e),
            Ok(p) => spec_mul_div_rest(
                toks,
                step_to(j, p.1, toks.len() as int),
                if t is Mul {
                    ExprV::Mul(Box::new(acc), Box::new(p.0))
                } else {
                    ExprV::Div(Box::new(acc), Box::new(p.0))
                },
                tbl,
            ),
        }
    } else {
        Ok((acc, j))
    }
}

/// Parses `mul_div_expr (("+" | "-") mul_div_expr)*` at `i`.
pub open spec fn spec_add_sub(toks: Seq<TokenV>, i: int, tbl: Map<Seq<char>, ExprV>) -> Result<
    (ExprV, int),
    ErrV,
>
    decreases remaining(toks, i), 8int,
{
    match spec_mul_div(toks, i, tbl) {
        Err(e) => Err(e),
        Ok(p) => spec_add_sub_rest(toks, step_to(i, p.1, toks.len() as int), p.0, tbl),
    }
}

/// Folds further `("+" | "-") mul_div_expr` steps into `acc`, grouping to the
/// left.
pub open spec fn spec_add_sub_rest(
    toks: Seq<TokenV>,
    j: int,
    acc: ExprV,
    tbl: Map<Seq<char>, ExprV>,
) -> Result<(ExprV, int), ErrV>
    decreases remaining(toks, j), 7int,
{
    let t = token_at(toks, j);
    if t is Add || t is Sub {
        match spec_mul_div(toks, j + 1, tbl) {
            Err(e) => Err(e),
            Ok(p) => spec_add_sub_rest(
                toks,
                step_to(j, p.1, toks.len() as int),
                if t is Add {
                    ExprV::Add(Box::new(acc), Box::new(p.0))
                } else {
                    ExprV::Sub(Box::new(acc), Box::new(p.0))
                },
                tbl,
            ),
        }
    } else {
        Ok((acc, j))
    }
}

/// Parses a whole value expression at `i`: the additive layer, the grammar's
/// lowest precedence.
pub open spec fn spec_val(toks: Seq<TokenV>, i: int, tbl: Map<Seq<char>, ExprV>) -> Result<
    (ExprV, int),
    ErrV,
>
    decreases remaining(toks, i), 9int,
{
    spec_add_sub(toks, i, tbl)
}

/// Parses `VAR_NAME "=" val_expr` at `i`, yielding the name, the tree bound
/// to it, and the position after the right-hand side.
pub open spec fn spec_var_assignment(
    toks: Seq<TokenV>,
    i: int,
    tbl: Map<Seq<char>, ExprV>,
) -> Result<(Seq<char>, ExprV, int), ErrV>
    decreases remaining(toks, i), 10int,
{
    match token_at(toks, i) {
        TokenV::VarName(n) => if token_at(toks, i + 1) is Equals {
            match spec_val(toks, i + 2, tbl) {
                Err(e) => Err(e),
                Ok(p) => Ok((n, p.0, p.1)),
            }
        } else {
            Err(
                ErrV::Unexpected {
                    got: token_at(toks, i + 1),
                    expected: seq![TokenV::Equals],
                },
            )
        },
        t => Err(ErrV::Unexpected { got: t, expected: seq![TokenV::VarName(Seq::empty())] }),
    }
}

/// Dispatches one line on its first token (and, for a variable name, one
/// token of lookahead): `quit` requests termination whatever the table holds;
/// a name followed by `=` is an assignment; anything else is a value
/// expression.
pub open spec fn spec_translation_unit(
    toks: Seq<TokenV>,
    i: int,
    tbl: Map<Seq<char>, ExprV>,
) -> Result<OutcomeV, ErrV>
    decreases remaining(toks, i), 11int,
{
    if token_at(toks, i) is Quit {
        Ok(OutcomeV::Quit)
    } else if token_at(toks, i) is VarName && token_at(toks, i + 1) is Equals {
        match spec_var_assignment(toks, i, tbl) {
            Err(e) => Err(e),
            Ok(p) => Ok(OutcomeV::VarAssign(p.0, p.1)),
        }
    } else {
        match spec_val(toks, i, tbl) {
            Err(e) => Err(e),
            Ok(p) => Ok(OutcomeV::Value(p.0)),
        }
    }
}

/// One table entry: a variable name and the closed tree bound to it.
pub struct Binding {
    /// The variable's name, as tokenized.
    pub name: Vec<char>,
    /// The closed tree the last assignment to this name produced.
    pub value: Expr,
}

/// The mapping a list of bindings denotes; a later entry for the same name
/// would win, though a well-formed table never holds two.
pub open spec fn entries_map(s: Seq<Binding>) -> Map<Seq<char>, ExprV>
    decreases s.len(),
{
    if s.len() == 0 {
        Map::empty()
    } else {
        entries_map(s.drop_last()).insert(s.last().name@, expr_view(s.last().value))
    }
}

/// The persistent variable table: one binding per name, created once per
/// session and mutated only by assignments.
pub struct VarTable {
    entries: Vec<Binding>,
}

impl VarTable {
    /// The mapping this table denotes.
    pub closed spec fn as_map(self) -> Map<Seq<char>, ExprV> {
        entries_map(self.entries@)
    }

    /// Well-formed: no name is bound twice.
    pub closed spec fn wf(self) -> bool {
        forall|i: int, j: int|
            0 <= i < j < self.entries@.len() ==> self.entries@[i].name@ != self.entries@[j].name@
    }

    /// An empty table.
    pub fn new() -> (r: VarTable)
        ensures
            r.wf(),
            r.as_map() == Map::<Seq<char>, ExprV>::empty(),
    {
        VarTable { entries: Vec::new() }
    }

    /// How many entries the table holds: exactly one per bound name, which is
    /// the promise that no name is ever bound twice.
    pub fn len(&self) -> (n: usize)
        requires
            self.wf(),
        ensures
            n as int == self.as_map().dom().len(),
            (n == 0) == (self.as_map() == Map::<Seq<char>, ExprV>::empty()),
    {
        proof {
            lemma_entries_map_dom_len(self.entries@);
            if self.entries@.len() > 0 {
                lemma_entries_map_covers(self.entries@);
                assert(self.as_map().contains_key(self.entries@[0].name@));
            }
        }
        self.entries.len()
    }

    /// The index of the entry binding `name`, if one exists.
    fn find_index(&self, name: &Vec<char>) -> (r: Option<usize>)
        ensures
            match r {
                Option::Some(i) => i < self.entries@.len() && self.entries@[i as int].name@
                    == name@,
                Option::None => forall|j: int|
                    0 <= j < self.entries@.len() ==> self.entries@[j].name@ != name@,
            },
    {
        let n = self.entries.len();
        let mut i: usize = 0;
        while i < n
            invariant
                0 <= i <= n == self.entries@.len(),
                forall|j: int| 0 <= j < i ==> self.entries@[j].name@ != name@,
            decreases n - i,
        {
            if chars_eq(&self.entries[i].name, name) {
                return Option::Some(i);
            }
            i = i + 1;
        }
        Option::None
    }

    /// The tree bound to `name`, copied out of the table, or `None` when the
    /// table does not bind the name.
    pub fn get(&self, name: &Vec<char>) -> (r: Option<Expr>)
        requires
            self.wf(),
        ensures
            match r {
                Option::Some(e) => self.as_map().contains_key(name@) && expr_view(e)
                    == self.as_map()[name@],
                Option::None => !self.as_map().contains_key(name@),
            },
    {
        proof {
            lemma_entries_map_covers(self.entries@);
        }
        match self.find_index(name) {
            Option::Some(i) => {
                proof {
                    lemma_entries_map_at(self.entries@, i as int);
                }
                Option::Some(self.entries[i].value.duplicate())
            },
            Option::None => Option::None,
        }
    }

    /// Binds `name` to `value`, overwriting any prior binding: afterwards the
    /// table denotes the old mapping with just this name (re)bound, and still
    /// holds at most one entry per name.
    pub fn set(&mut self, name: Vec<char>, value: Expr)
        requires
            old(self).wf(),
        ensures
            final(self).wf(),
            final(self).as_map() == old(self).as_map().insert(name@, expr_view(value)),
    {
        match self.find_index(&name) {
            Option::Some(i) => {
                let ghost before = self.entries@;
                self.entries[i] = Binding { name, value };
                proof {
                    lemma_entries_map_update(before, i as int, self.entries@[i as int]);
                }
            },
            Option::None => {
                let ghost before = self.entries@;
                self.entries.push(Binding { name, value });
                proof {
                    assert(self.entries@.drop_last() =~= before);
                }
            },
        }
    }
}

/// The parser for one session: a token list with an index cursor, consumed
/// front to back while one line is parsed, and the variable table that
/// persists across lines.
pub struct Parser {
    tokens: Vec<Token>,
    pos: usize,
    var_table: VarTable,
}

impl Parser {
    /// The images of the tokens the cursor walks.
    pub closed spec fn toks(self) -> Seq<TokenV> {
        views(self.tokens@)
    }

    /// The cursor's position.
    pub closed spec fn cursor(self) -> int {
        self.pos as int
    }

    /// The mapping the variable table denotes.
    pub closed spec fn tbl(self) -> Map<Seq<char>, ExprV> {
        self.var_table.as_map()
    }

    /// Well-formed: the cursor sits inside or just past the token list, and
    /// the table binds each name at most once.
    pub closed spec fn wf(self) -> bool {
        self.pos <= self.tokens@.len() && self.var_table.wf()
    }

    /// The token under the cursor; `Invalid` once the list is exhausted.
    pub open spec fn cur(self) -> TokenV {
        token_at(self.toks(), self.cursor())
    }

    /// A parser with no tokens and an empty table.
    pub fn new() -> (r: Parser)
        ensures
            r.wf(),
            r.toks() == Seq::<TokenV>::empty(),
            r.cursor() == 0,
            r.tbl() == Map::<Seq<char>, ExprV>::empty(),
    {
        let p = Parser { tokens: Vec::new(), pos: 0, var_table: VarTable::new() };
        proof {
            assert(p.toks() =~= Seq::<TokenV>::empty());
        }
        p
    }

    /// Hands the parser the next line's tokens and rewinds the cursor. The
    /// variable table persists.
    pub fn set_tokens(&mut self, tokens: Vec<Token>)
        requires
            old(self).wf(),
        ensures
            final(self).wf(),
            final(self).toks() == views(tokens@),
            final(self).cursor() == 0,
            final(self).tbl() == old(self).tbl(),
    {
        self.tokens = tokens;
        self.pos = 0;
    }

    /// The table of bindings made so far this session.
    pub fn get_var_table(&self) -> (r: &VarTable)
        ensures
            r.as_map() == self.tbl(),
            self.wf() ==> r.wf(),
    {
        &self.var_table
    }

    /// Advances the cursor one token, stopping at the end of the list.
    fn next_token(&mut self)
        requires
            old(self).wf(),
        ensures
            final(self).wf(),
            final(self).toks() == old(self).toks(),
            final(self).tbl() == old(self).tbl(),
            final(self).cursor() == if old(self).cursor() < old(self).toks().len() {
                old(self).cursor() + 1
            } else {
                old(self).cursor()
            },
    {
        if self.pos < self.tokens.len() {
            self.pos = self.pos + 1;
        }
    }

    /// Whether the cursor's token is of the same kind as `sample`.
    fn current_is(&self, sample: &Token) -> (r: bool)
        ensures
            r == same_kind(self.cur(), sample@),
    {
        if self.pos < self.tokens.len() {
            self.tokens[self.pos].same_type(sample)
        } else {
            let inv = Token::Invalid;
            inv.same_type(sample)
        }
    }

    /// Whether the token one past the cursor is `=`; the lookahead that
    /// tells an assignment from an expression beginning with a name.
    fn peek_next_is_equals(&self) -> (r: bool)
        requires
            self.wf(),
        ensures
            r == (token_at(self.toks(), self.cursor() + 1) is Equals),
    {
        if self.pos < self.tokens.len() {
            if self.pos + 1 < self.tokens.len() {
                matches!(&self.tokens[self.pos + 1], Token::Equals)
            } else {
                false
            }
        } else {
            false
        }
    }

    /// An owned copy of the cursor's token.
    fn duplicate_current(&self) -> (r: Token)
        ensures
            r@ == self.cur(),
    {
        if self.pos < self.tokens.len() {
            self.tokens[self.pos].duplicate()
        } else {
            Token::Invalid
        }
    }

    /// Consumes the cursor's token if it is of the expected kind, payload
    /// ignored; otherwise reports what was expected and what stood there.
    fn accept(&mut self, expected_type: Token) -> (r: Result<(), ParserError>)
        requires
            old(self).wf(),
        ensures
            final(self).wf(),
            final(self).toks() == old(self).toks(),
            final(self).tbl() == old(self).tbl(),
            same_kind(old(self).cur(), expected_type@) ==> r is Ok && final(self).cursor() == (
            if old(self).cursor() < old(self).toks().len() {
                old(self).cursor() + 1
            } else {
                old(self).cursor()
            }),
            !same_kind(old(self).cur(), expected_type@) ==> (r matches Err(e) && err_view(e)
                == (ErrV::Unexpected { got: old(self).cur(), expected: seq![expected_type@] })
                && final(self).cursor() == old(self).cursor()),
    {
        let ghost expected_view = expected_type@;
        if self.current_is(&expected_type) {
            self.next_token();
            Ok(())
        } else {
            let got = self.duplicate_current();
            let mut expected: Vec<Token> = Vec::new();
            expected.push(expected_type);
            proof {
                assert(views(expected@) =~= seq![expected_view]);
            }
            Err(ParserError::Unexpected { got, expected })
        }
    }

    /// Consumes the cursor's token unconditionally; used once lookahead has
    /// already settled its kind.
    fn accept_it(&mut self)
        requires
            old(self).wf(),
        ensures
            final(self).wf(),
            final(self).toks() == old(self).toks(),
            final(self).tbl() == old(self).tbl(),
            final(self).cursor() == if old(self).cursor() < old(self).toks().len() {
                old(self).cursor() + 1
            } else {
                old(self).cursor()
            },
    {
        self.next_token();
    }

    /// Records `value` as the tree bound to `var_name`.
    fn register_variable(&mut self, var_name: Vec<char>, value: Expr)
        requires
            old(self).wf(),
        ensures
            final(self).wf(),
            final(self).toks() == old(self).toks(),
            final(self).cursor() == old(self).cursor(),
            final(self).tbl() == old(self).tbl().insert(var_name@, expr_view(value)),
    {
        self.var_table.set(var_name, value);
    }

    /// Parses an atom: a number literal, a bound variable name, or a
    /// bracketed expression, exactly as [`spec_atom`] describes.
    fn parse_atom(&mut self) -> (r: Result<Expr, ParserError>)
        requires
            old(self).wf(),
        ensures
            final(self).wf(),
            final(self).toks() == old(self).toks(),
            final(self).tbl() == old(self).tbl(),
            match spec_atom(old(self).toks(), old(self).cursor(), old(self).tbl()) {
                Ok(p) => r matches Ok(e) && expr_view(e) == p.0 && final(self).cursor() == p.1
                    && old(self).cursor() < p.1 <= old(self).toks().len(),
                Err(ev) => r matches Err(pe) && err_view(pe) == ev && (!(old(self).cur()
                    is LBracket) ==> final(self).cursor() == old(self).cursor()),
            },
        decreases remaining(self.toks(), self.cursor()), 1int,
    {
        if self.current_is(&Token::LBracket) {
            return self.parse_bracket_expr();
        }
        let cur = self.duplicate_current();
        match cur {
            Token::VarName(name) => {
                let looked = self.var_table.get(&name);
                match looked {
                    Option::Some(value) => {
                        self.accept_it();
                        Ok(value)
                    },
                    Option::None => Err(ParserError::UnboundVariable { name }),
                }
            },
            Token::Number(text) => {
                self.accept_it();
                Ok(Expr::Lit(text))
            },
            other => {
                let mut expected: Vec<Token> = Vec::new();
                expected.push(Token::VarName(Vec::new()));
                expected.push(Token::Number(Vec::new()));
                expected.push(Token::LBracket);
                proof {
                    assert(views(expected@) =~= atom_expected());
                }
                Err(ParserError::Unexpected { got: other, expected })
            },
        }
    }

    /// Parses `"(" val_expr ")"`, exactly as [`spec_bracket`] describes.
    fn parse_bracket_expr(&mut self) -> (r: Result<Expr, ParserError>)
        requires
            old(self).wf(),
        ensures
            final(self).wf(),
            final(self).toks() == old(self).toks(),
            final(self).tbl() == old(self).tbl(),
            match spec_bracket(old(self).toks(), old(self).cursor(), old(self).tbl()) {
                Ok(p) => r matches Ok(e) && expr_view(e) == p.0 && final(self).cursor() == p.1
                    && old(self).cursor() < p.1 <= old(self).toks().len(),
                Err(ev) => r matches Err(pe) && err_view(pe) == ev,
            },
        decreases remaining(self.toks(), self.cursor()), 0int,
    {
        match self.accept(Token::LBracket) {
            Err(e) => {
                return Err(e);
            },
            Ok(()) => {},
        }
        let result = match self.parse_val_expr() {
            Ok(v) => v,
            Err(e) => {
                return Err(e);
            },
        };
        match self.accept(Token::RBracket) {
            Err(e) => {
                return Err(e);
            },
            Ok(()) => {},
        }
        Ok(result)
    }

    /// Parses `atom ("^" atom)*`, folding to the left as [`spec_exp`]
    /// describes: `2^3^2` groups as `(2^3)^2`.
    fn parse_exp_expr(&mut self) -> (r: Result<Expr, ParserError>)
        requires
            old(self).wf(),
        ensures
            final(self).wf(),
            final(self).toks() == old(self).toks(),
            final(self).tbl() == old(self).tbl(),
            match spec_exp(old(self).toks(), old(self).cursor(), old(self).tbl()) {
                Ok(p) => r matches Ok(e) && expr_view(e) == p.0 && final(self).cursor() == p.1
                    && old(self).cursor() < p.1 <= old(self).toks().len(),
                Err(ev) => r matches Err(pe) && err_view(pe) == ev,
            },
        decreases remaining(self.toks(), self.cursor()), 3int,
    {
        let mut result = match self.parse_atom() {
            Ok(v) => v,
            Err(e) => {
                return Err(e);
            },
        };
        while self.current_is(&Token::Exp)
            invariant
                self.wf(),
                self.toks() == old(self).toks(),
                self.tbl() == old(self).tbl(),
                old(self).cursor() < self.cursor() <= self.toks().len(),
                spec_exp_rest(self.toks(), self.cursor(), expr_view(result), self.tbl())
                    == spec_exp(old(self).toks(), old(self).cursor(), old(self).tbl()),
            decreases self.toks().len() - self.cursor(),
        {
            self.accept_it();
            let rhs = match self.parse_atom() {
                Ok(v) => v,
                Err(e) => {
                    return Err(e);
                },
            };
            result = Expr::Pow(Box::new(result), Box::new(rhs));
        }
        Ok(result)
    }

    /// Parses `"-"? exp_expr`: one leading minus negates the whole
    /// exponentiation expression, as [`spec_unary`] describes, so `-2^2`
    /// denotes `-(2^2)`.
    fn parse_unary_expr(&mut self) -> (r: Result<Expr, ParserError>)
        requires
            old(self).wf(),
        ensures
            final(self).wf(),
            final(self).toks() == old(self).toks(),
            final(self).tbl() == old(self).tbl(),
            match spec_unary(old(self).toks(), old(self).cursor(), old(self).tbl()) {
                Ok(p) => r matches Ok(e) && expr_view(e) == p.0 && final(self).cursor() == p.1
                    && old(self).cursor() < p.1 <= old(self).toks().len(),
                Err(ev) => r matches Err(pe) && err_view(pe) == ev,
            },
        decreases remaining(self.toks(), self.cursor()), 4int,
    {
        if self.current_is(&Token::Sub) {
            self.accept_it();
            match self.parse_exp_expr() {
                Ok(v) => Ok(Expr::Neg(Box::new(v))),
                Err(e) => Err(e),
            }
        } else {
            self.parse_exp_expr()
        }
    }

    /// Parses `unary_expr (("*" | "/") unary_expr)*`, folding to the left as
    /// [`spec_mul_div`] describes.
    fn parse_mul_div_expr(&mut self) -> (r: Result<Expr, ParserError>)
        requires
            old(self).wf(),
        ensures
            final(self).wf(),
            final(self).toks() == old(self).toks(),
            final(self).tbl() == old(self).tbl(),
            match spec_mul_div(old(self).toks(), old(self).cursor(), old(self).tbl()) {
                Ok(p) => r matches Ok(e) && expr_view(e) == p.0 && final(self).cursor() == p.1
                    && old(self).cursor() < p.1 <= old(self).toks().len(),
                Err(ev) => r matches Err(pe) && err_view(pe) == ev,
            },
        decreases remaining(self.toks(), self.cursor()), 6int,
    {
        let mut result = match self.parse_unary_expr() {
            Ok(v) => v,
            Err(e) => {
                return Err(e);
            },
        };
        while self.current_is(&Token::Mul) || self.current_is(&Token::Div)
            invariant
                self.wf(),
                self.toks() == old(self).toks(),
                self.tbl() == old(self).tbl(),
                old(self).cursor() < self.cursor() <= self.toks().len(),
                spec_mul_div_rest(self.toks(), self.cursor(), expr_view(result), self.tbl())
                    == spec_mul_div(old(self).toks(), old(self).cursor(), old(self).tbl()),
            decreases self.toks().len() - self.cursor(),
        {
            let is_mul = self.current_is(&Token::Mul);
            self.accept_it();
            let rhs = match self.parse_unary_expr() {
                Ok(v) => v,
                Err(e) => {
                    return Err(e);
                },
            };
            result = if is_mul {
                Expr::Mul(Box::new(result), Box::new(rhs))
            } else {
                Expr::Div(Box::new(result), Box::new(rhs))
            };
        }
        Ok(result)
    }

    /// Parses `mul_div_expr (("+" | "-") mul_div_expr)*`, folding to the left
    /// as [`spec_add_sub`] describes.
    fn parse_add_sub_expr(&mut self) -> (r: Result<Expr, ParserError>)
        requires
            old(self).wf(),
        ensures
            final(self).wf(),
            final(self).toks() == old(self).toks(),
            final(self).tbl() == old(self).tbl(),
            match spec_add_sub(old(self).toks(), old(self).cursor(), old(self).tbl()) {
                Ok(p) => r matches Ok(e) && expr_view(e) == p.0 && final(self).cursor() == p.1
                    && old(self).cursor() < p.1 <= old(self).toks().len(),
                Err(ev) => r matches Err(pe) && err_view(pe) == ev,
            },
        decreases remaining(self.toks(), self.cursor()), 8int,
    {
        let mut result = match self.parse_mul_div_expr() {
            Ok(v) => v,
            Err(e) => {
                return Err(e);
            },
        };
        while self.current_is(&Token::Add) || self.current_is(&Token::Sub)
            invariant
                self.wf(),
                self.toks() == old(self).toks(),
                self.tbl() == old(self).tbl(),
                old(self).cursor() < self.cursor() <= self.toks().len(),
                spec_add_sub_rest(self.toks(), self.cursor(), expr_view(result), self.tbl())
                    == spec_add_sub(old(self).toks(), old(self).cursor(), old(self).tbl()),
            decreases self.toks().len() - self.cursor(),
        {
            let is_add = self.current_is(&Token::Add);
            self.accept_it();
            let rhs = match self.parse_mul_div_expr() {
                Ok(v) => v,
                Err(e) => {
                    return Err(e);
                },
            };
            result = if is_add {
                Expr::Add(Box::new(result), Box::new(rhs))
            } else {
                Expr::Sub(Box::new(result), Box::new(rhs))
            };
        }
        Ok(result)
    }

    /// Parses a whole value expression: the closed tree a line such as
    /// `(1 + 2) * 3` denotes, exactly as [`spec_val`] describes.
    pub fn parse_val_expr(&mut self) -> (r: Result<Expr, ParserError>)
        requires
            old(self).wf(),
        ensures
            final(self).wf(),
            final(self).toks() == old(self).toks(),
            final(self).tbl() == old(self).tbl(),
            match spec_val(old(self).toks(), old(self).cursor(), old(self).tbl()) {
                Ok(p) => r matches Ok(e) && expr_view(e) == p.0 && final(self).cursor() == p.1
                    && old(self).cursor() < p.1 <= old(self).toks().len(),
                Err(ev) => r matches Err(pe) && err_view(pe) == ev,
            },
        decreases remaining(self.toks(), self.cursor()), 9int,
    {
        self.parse_add_sub_expr()
    }

    /// Parses `VAR_NAME "=" val_expr` and, only once the whole right-hand
    /// side has parsed, binds the name to its tree; on any failure the table
    /// is left exactly as it was.
    pub fn parse_var_assignment(&mut self) -> (r: Result<(), ParserError>)
        requires
            old(self).wf(),
        ensures
            final(self).wf(),
            final(self).toks() == old(self).toks(),
            match spec_var_assignment(old(self).toks(), old(self).cursor(), old(self).tbl()) {
                Ok(p) => r is Ok && final(self).tbl() == old(self).tbl().insert(p.0, p.1)
                    && final(self).cursor() == p.2,
                Err(ev) => r matches Err(pe) && err_view(pe) == ev && final(self).tbl() == old(self).tbl(),
            },
        decreases remaining(self.toks(), self.cursor()), 10int,
    {
        let cur = self.duplicate_current();
        let var_name = match cur {
            Token::VarName(name) => name,
            other => {
                let mut expected: Vec<Token> = Vec::new();
                expected.push(Token::VarName(Vec::new()));
                proof {
                    assert(views(expected@) =~= seq![TokenV::VarName(Seq::<char>::empty())]);
                }
                return Err(ParserError::Unexpected { got: other, expected });
            },
        };
        match self.accept(Token::VarName(Vec::new())) {
            Err(e) => {
                return Err(e);
            },
            Ok(()) => {},
        }
        match self.accept(Token::Equals) {
            Err(e) => {
                return Err(e);
            },
            Ok(()) => {},
        }
        let var_value = match self.parse_val_expr() {
            Ok(v) => v,
            Err(e) => {
                return Err(e);
            },
        };
        self.register_variable(var_name, var_value);
        Ok(())
    }

    /// Parses one line, dispatching on the first token and one token of
    /// lookahead as [`spec_translation_unit`] describes: `quit` requests
    /// termination whatever the table holds; a name followed by `=` binds the
    /// name; anything else denotes a value. On any failure the table is left
    /// exactly as it was and the session can go on with the next line.
    pub fn parse_translation_unit(&mut self) -> (r: Result<ParserResult, ParserError>)
        requires
            old(self).wf(),
        ensures
            final(self).wf(),
            final(self).toks() == old(self).toks(),
            match spec_translation_unit(old(self).toks(), old(self).cursor(), old(self).tbl()) {
                Ok(o) => match o {
                    OutcomeV::Quit => r matches Ok(ParserResult::Quit) && final(self).tbl()
                        == old(self).tbl(),
                    OutcomeV::Value(e) => (r matches Ok(pr) && pr matches ParserResult::Value(ex)
                        && expr_view(ex) == e) && final(self).tbl() == old(self).tbl(),
                    OutcomeV::VarAssign(n, e) => r matches Ok(ParserResult::VarAssign) && final(self).tbl() == old(self).tbl().insert(n, e),
                },
                Err(ev) => r matches Err(pe) && err_view(pe) == ev && final(self).tbl() == old(self).tbl(),
            },
        decreases remaining(self.toks(), self.cursor()), 11int,
    {
        if self.current_is(&Token::Quit) {
            return Ok(ParserResult::Quit);
        }
        let name_sample = Token::VarName(Vec::new());
        if self.current_is(&name_sample) && self.peek_next_is_equals() {
            match self.parse_var_assignment() {
                Ok(()) => Ok(ParserResult::VarAssign),
                Err(e) => Err(e),
            }
        } else {
            match self.parse_val_expr() {
                Ok(v) => Ok(ParserResult::Value(v)),
                Err(e) => Err(e),
            }
        }
    }
}

/// Whether two character vectors hold the same characters.
fn chars_eq(a: &Vec<char>, b: &Vec<char>) -> (r: bool)
    ensures
        r == (a@ == b@),
{
    if a.len() != b.len() {
        return false;
    }
    let n = a.len();
    let mut i: usize = 0;
    while i < n
        invariant
            0 <= i <= n,
            a@.len() == n && b@.len() == n,
            forall|j: int| 0 <= j < i ==> a@[j] == b@[j],
        decreases n - i,
    {
        if a[i] != b[i] {
            return false;
        }
        i = i + 1;
    }
    proof {
        assert(a@ =~= b@);
    }
    true
}

/// Every entry's name is a key of the denoted mapping, and every key comes
/// from some entry.
proof fn lemma_entries_map_covers(s: Seq<Binding>)
    ensures
        forall|k: Seq<char>| #![auto]
            entries_map(s).contains_key(k) ==> exists|i: int| 0 <= i < s.len() && s[i].name@ == k,
        forall|i: int| 0 <= i < s.len() ==> entries_map(s).contains_key(#[trigger] s[i].name@),
    decreases s.len(),
{
    if s.len() > 0 {
        lemma_entries_map_covers(s.drop_last());
        assert forall|i: int| 0 <= i < s.len() implies entries_map(s).contains_key(
            #[trigger] s[i].name@,
        ) by {
            if i < s.len() - 1 {
                assert(s.drop_last()[i] == s[i]);
                assert(entries_map(s.drop_last()).contains_key(s[i].name@));
            }
        }
        assert forall|k: Seq<char>| #![auto] entries_map(s).contains_key(k) implies exists|i: int|
            0 <= i < s.len() && s[i].name@ == k by {
            if k == s.last().name@ {
                assert(s[s.len() - 1].name@ == k);
            } else {
                assert(entries_map(s.drop_last()).contains_key(k));
                let i = choose|i: int|
                    0 <= i < s.drop_last().len() && s.drop_last()[i].name@ == k;
                assert(s[i].name@ == k);
            }
        }
    }
}

/// In a duplicate-free table the denoted mapping takes each entry's name to
/// that entry's tree.
proof fn lemma_entries_map_at(s: Seq<Binding>, i: int)
    requires
        0 <= i < s.len(),
        forall|p: int, q: int| 0 <= p < q < s.len() ==> s[p].name@ != s[q].name@,
    ensures
        entries_map(s).contains_key(s[i].name@),
        entries_map(s)[s[i].name@] == expr_view(s[i].value),
    decreases s.len(),
{
    lemma_entries_map_covers(s);
    if i < s.len() - 1 {
        assert(s.drop_last()[i] == s[i]);
        lemma_entries_map_at(s.drop_last(), i);
        assert(s.last().name@ != s[i].name@);
    }
}

/// A duplicate-free table denotes a mapping with exactly one name per entry.
proof fn lemma_entries_map_dom_len(s: Seq<Binding>)
    requires
        forall|p: int, q: int| 0 <= p < q < s.len() ==> s[p].name@ != s[q].name@,
    ensures
        entries_map(s).dom().len() == s.len(),
        entries_map(s).dom().finite(),
    decreases s.len(),
{
    if s.len() == 0 {
    } else {
        lemma_entries_map_dom_len(s.drop_last());
        lemma_entries_map_covers(s.drop_last());
        assert(!entries_map(s.drop_last()).contains_key(s.last().name@));
        assert(entries_map(s).dom() =~= entries_map(s.drop_last()).dom().insert(s.last().name@));
    }
}

/// Replacing the one entry that binds a name denotes the same mapping as
/// inserting the replacement's binding.
proof fn lemma_entries_map_update(s: Seq<Binding>, i: int, b: Binding)
    requires
        0 <= i < s.len(),
        forall|p: int, q: int| 0 <= p < q < s.len() ==> s[p].name@ != s[q].name@,
        b.name@ == s[i].name@,
    ensures
        entries_map(s.update(i, b)) == entries_map(s).insert(b.name@, expr_view(b.value)),
    decreases s.len(),
{
    let t = s.update(i, b);
    if i == s.len() - 1 {
        assert(t.drop_last() =~= s.drop_last());
        assert(t.last() == b);
        assert(entries_map(t) =~= entries_map(s).insert(b.name@, expr_view(b.value)));
    } else {
        assert(t.drop_last() =~= s.drop_last().update(i, b));
        assert(s.drop_last()[i] == s[i]);
        lemma_entries_map_update(s.drop_last(), i, b);
        assert(t.last() == s.last());
        assert(entries_map(t) == entries_map(s.drop_last()).insert(
            b.name@,
            expr_view(b.value),
        ).insert(s.last().name@, expr_view(s.last().value)));
        assert(s.last().name@ != b.name@);
        assert(entries_map(s.drop_last()).insert(b.name@, expr_view(b.value)).insert(
            s.last().name@,
            expr_view(s.last().value),
        ) =~= entries_map(s.drop_last()).insert(
            s.last().name@,
            expr_view(s.last().value),
        ).insert(b.name@, expr_view(b.value)));
    }
}

} // verus!
