//! The language's grammar, as functions from a token sequence to a syntax
//! tree:
//!
//! ```text
//! program    = function*
//! function   = ident "(" params? ")" "{" stmt* "}"
//! params     = ident ("," ident)*
//! stmt       = expr ";"
//!            | "{" stmt* "}"
//!            | "if" "(" expr ")" stmt ("else" stmt)?
//!            | "while" "(" expr ")" stmt
//!            | "for" "(" expr? ";" expr? ";" expr? ")" stmt
//!            | "return" expr ";"
//! expr       = assign
//! assign     = equality ("=" assign)?
//! equality   = relational (("=="|"!=") relational)*
//! relational = add (("<"|"<="|">"|">=") add)*
//! add        = mul (("+"|"-") mul)*
//! mul        = unary (("*"|"/") unary)*
//! unary      = ("+"|"-")? primary
//! primary    = number | ident ("(" args? ")")? | "(" expr ")"
//! args       = expr ("," expr)*
//! ```
//!
//! Each function takes the tokens that are left and the names of the
//! variables seen so far in the current function, and gives the tree it read
//! together with the tokens and names after it, or the first syntax error.

use crate::tokenize::{TokenKind, TokenView};
use vstd::prelude::*;

verus! {

/// The binary operators of the syntax tree. `a > b` and `a >= b` are read as
/// `b < a` and `b <= a`, so there is no operator for them.
#[derive(Clone, Copy, Debug, PartialEq, Eq, Structural)]
pub enum BinOp {
    Add,
    Sub,
    Mul,
    Div,
    Eq,
    Ne,
    Lt,
    Le,
}

/// A syntax tree, as contracts see it.
pub enum Ast {
    /// An optional clause that the source left out.
    Nothing,
    /// An integer literal.
    Num(nat),
    /// A local variable, by the byte offset of its slot.
    Var(nat),
    /// A binary operation on two values.
    Binary(BinOp, Box<Ast>, Box<Ast>),
    /// An assignment of the second tree's value to the first tree's place.
    Assign(Box<Ast>, Box<Ast>),
    /// A call of the named function with arguments.
    Call(Seq<char>, Seq<Ast>),
    /// `return` with its operand.
    Return(Box<Ast>),
    /// Condition, consequent, alternative.
    If(Box<Ast>, Box<Ast>, Box<Ast>),
    /// Condition, body.
    While(Box<Ast>, Box<Ast>),
    /// Initializer, condition, increment, body.
    For(Box<Ast>, Box<Ast>, Box<Ast>, Box<Ast>),
    /// A brace-enclosed sequence of statements.
    Block(Seq<Ast>),
    /// A function definition; `frame` is the size of its locals in bytes.
    Function { name: Seq<char>, body: Seq<Ast>, params: Seq<Ast>, frame: nat },
}

/// The punctuation marks whose absence is a syntax error.
#[derive(Clone, Copy, Debug, PartialEq, Eq, Structural)]
pub enum Symbol {
    LParen,
    RParen,
    LBrace,
    Semicolon,
}

/// Why parsing stopped.
#[derive(Clone, Copy, Debug, PartialEq, Eq, Structural)]
pub enum ParseError {
    /// `symbol` was needed; `at_end` tells whether the input had ended or
    /// another token stood in its place.
    Missing { symbol: Symbol, at_end: bool },
    /// An integer literal was needed.
    MissingNumber { at_end: bool },
    /// A function definition must start with its name.
    MissingFunctionName,
    /// A comma in a parameter list must be followed by a name.
    MissingParameter,
    /// The function has more variables than a 32-bit frame size can count.
    TooManyVariables,
}

impl ParseError {
    /// The diagnostic for this error.
    pub open spec fn text(self) -> Seq<char> {
        match self {
            ParseError::Missing { symbol, at_end } => "expected '"@ + symbol_text(symbol) + (
            if at_end {
                "' at the end of the input"@
            } else {
                "', but found another token"@
            }),
            ParseError::MissingNumber { at_end } => if at_end {
                "expected a number at the end of the input"@
            } else {
                "expected a number, but found another token"@
            },
            ParseError::MissingFunctionName => "expected the name of a function"@,
            ParseError::MissingParameter => "expected the name of a parameter after ','"@,
            ParseError::TooManyVariables => "too many variables in one function"@,
        }
    }

    /// A diagnostic that names what the parser looked for in vain.
    pub fn message(&self) -> (text: String)
        ensures
            text@ == self.text(),
    {
        match self {
            ParseError::Missing { symbol, at_end } => {
                let mut text = String::from_str("expected '");
                text.append(symbol_str(*symbol));
                if *at_end {
                    text.append("' at the end of the input");
                } else {
                    text.append("', but found another token");
                }
                text
            },
            ParseError::MissingNumber { at_end } => if *at_end {
                String::from_str("expected a number at the end of the input")
            } else {
                String::from_str("expected a number, but found another token")
            },
            ParseError::MissingFunctionName => String::from_str("expected the name of a function"),
            ParseError::MissingParameter => String::from_str(
                "expected the name of a parameter after ','",
            ),
            ParseError::TooManyVariables => String::from_str("too many variables in one function"),
        }
    }
}

/// A tree, the tokens left after it, and the variable names seen so far.
pub struct Parsed {
    pub node: Ast,
    pub rest: Seq<TokenView>,
    pub vars: Seq<Seq<char>>,
}

/// Like [`Parsed`], for a list of trees.
pub struct ParsedList {
    pub nodes: Seq<Ast>,
    pub rest: Seq<TokenView>,
    pub vars: Seq<Seq<char>>,
}

/// How a symbol is written.
pub open spec fn symbol_text(symbol: Symbol) -> Seq<char> {
    match symbol {
        Symbol::LParen => "("@,
        Symbol::RParen => ")"@,
        Symbol::LBrace => "{"@,
        Symbol::Semicolon => ";"@,
    }
}

/// How `symbol` is written.
pub fn symbol_str(symbol: Symbol) -> (text: &'static str)
    ensures
        text@ == symbol_text(symbol),
{
    match symbol {
        Symbol::LParen => "(",
        Symbol::RParen => ")",
        Symbol::LBrace => "{",
        Symbol::Semicolon => ";",
    }
}

/// Whether the next token is the reserved word or operator `op`.
pub open spec fn peek_is(toks: Seq<TokenView>, op: Seq<char>) -> bool {
    toks.len() > 0 && toks[0].kind == TokenKind::TK_RESERVED && toks[0].str == op
}

/// Whether the next token is of kind `kind`.
pub open spec fn peek_kind(toks: Seq<TokenView>, kind: TokenKind) -> bool {
    toks.len() > 0 && toks[0].kind == kind
}

/// The tokens after `symbol`, which must come next.
pub open spec fn expect_spec(toks: Seq<TokenView>, symbol: Symbol) -> Result<
    Seq<TokenView>,
    ParseError,
> {
    if peek_is(toks, symbol_text(symbol)) {
        Ok(toks.drop_first())
    } else {
        Err(ParseError::Missing { symbol, at_end: toks.len() == 0 })
    }
}

/// The value of the integer literal that must come next.
pub open spec fn expect_number_spec(toks: Seq<TokenView>) -> Result<u32, ParseError> {
    if toks.len() == 0 {
        Err(ParseError::MissingNumber { at_end: true })
    } else if toks[0].kind == TokenKind::TK_NUM && toks[0].val is Some {
        Ok(toks[0].val->0)
    } else {
        Err(ParseError::MissingNumber { at_end: false })
    }
}

/// Index of the first occurrence of `name` in `vars`, or the length of
/// `vars` where there is none.
pub open spec fn position(vars: Seq<Seq<char>>, name: Seq<char>) -> nat
    decreases vars.len(),
{
    if vars.len() == 0 {
        0
    } else if vars[0] == name {
        0
    } else {
        1 + position(vars.drop_first(), name)
    }
}

/// The most variables that one function can hold: eight bytes each, in a
/// frame whose size fits in 32 bits.
pub open spec fn max_vars() -> nat {
    0x1fff_ffff
}

/// The slot of the variable `name`: the one it got at its first appearance,
/// or else the next free one, eight bytes beyond the last. Gives the slot's
/// offset and the names known afterwards.
pub open spec fn local_var_spec(name: Seq<char>, vars: Seq<Seq<char>>) -> Result<
    (nat, Seq<Seq<char>>),
    ParseError,
> {
    let k = position(vars, name);
    if k < vars.len() {
        Ok((8 * k, vars))
    } else if vars.len() >= max_vars() {
        Err(ParseError::TooManyVariables)
    } else {
        Ok((8 * k, vars.push(name)))
    }
}

/// The tokens left by a parse of `input`: `rest`, which is never longer than
/// `input` (see [`crate::grammar_laws`]).
pub open spec fn within(rest: Seq<TokenView>, input: Seq<TokenView>) -> Seq<TokenView> {
    if rest.len() <= input.len() {
        rest
    } else {
        input
    }
}

/// The tree of a binary operation.
pub open spec fn binary(op: BinOp, lhs: Ast, rhs: Ast) -> Ast {
    Ast::Binary(op, Box::new(lhs), Box::new(rhs))
}

/// `primary = number | ident ("(" args? ")")? | "(" expr ")"`
///
/// A name followed by `(` is a call; any other name is a variable.
#[verifier::opaque]
pub open spec fn primary_spec(toks: Seq<TokenView>, vars: Seq<Seq<char>>) -> Result<
    Parsed,
    ParseError,
>
    decreases toks.len(), 0nat,
{
    if peek_is(toks, "("@) {
        match expr_spec(toks.drop_first(), vars) {
            Err(e) => Err(e),
            Ok(p) => match expect_spec(p.rest, Symbol::RParen) {
                Err(e) => Err(e),
                Ok(rest) => Ok(Parsed { node: p.node, rest, vars: p.vars }),
            },
        }
    } else if peek_kind(toks, TokenKind::TK_IDENT) {
        let name = toks[0].str;
        let after = toks.drop_first();
        if peek_is(after, "("@) {
            match func_args_spec(after.drop_first(), vars) {
                Err(e) => Err(e),
                Ok(l) => Ok(Parsed { node: Ast::Call(name, l.nodes), rest: l.rest, vars: l.vars }),
            }
        } else {
            match local_var_spec(name, vars) {
                Err(e) => Err(e),
                Ok(slot) => Ok(Parsed { node: Ast::Var(slot.0), rest: after, vars: slot.1 }),
            }
        }
    } else {
        match expect_number_spec(toks) {
            Err(e) => Err(e),
            Ok(v) => Ok(Parsed { node: Ast::Num(v as nat), rest: toks.drop_first(), vars }),
        }
    }
}

/// The arguments of a call, after its `(`, up to and including its `)`.
#[verifier::opaque]
pub open spec fn func_args_spec(toks: Seq<TokenView>, vars: Seq<Seq<char>>) -> Result<
    ParsedList,
    ParseError,
>
    decreases toks.len(), 11nat,
{
    if peek_is(toks, ")"@) {
        Ok(ParsedList { nodes: Seq::empty(), rest: toks.drop_first(), vars })
    } else {
        match assign_spec(toks, vars) {
            Err(e) => Err(e),
            Ok(a) => args_tail(seq![a.node], within(a.rest, toks), a.vars),
        }
    }
}

/// The arguments that follow `done`: `("," expr)* ")"`.
#[verifier::opaque]
pub open spec fn args_tail(done: Seq<Ast>, toks: Seq<TokenView>, vars: Seq<Seq<char>>) -> Result<
    ParsedList,
    ParseError,
>
    decreases toks.len(), 0nat,
{
    if peek_is(toks, ","@) {
        match assign_spec(toks.drop_first(), vars) {
            Err(e) => Err(e),
            Ok(a) => args_tail(done.push(a.node), within(a.rest, toks.drop_first()), a.vars),
        }
    } else {
        match expect_spec(toks, Symbol::RParen) {
            Err(e) => Err(e),
            Ok(rest) => Ok(ParsedList { nodes: done, rest, vars }),
        }
    }
}

/// `unary = ("+"|"-")? primary`, where `-x` is read as `0 - x` and `+x` as
/// `x`.
#[verifier::opaque]
pub open spec fn unary_spec(toks: Seq<TokenView>, vars: Seq<Seq<char>>) -> Result<
    Parsed,
    ParseError,
>
    decreases toks.len(), 1nat,
{
    if peek_is(toks, "+"@) {
        primary_spec(toks.drop_first(), vars)
    } else if peek_is(toks, "-"@) {
        match primary_spec(toks.drop_first(), vars) {
            Err(e) => Err(e),
            Ok(p) => Ok(
                Parsed {
                    node: binary(BinOp::Sub, Ast::Num(0), p.node),
                    rest: p.rest,
                    vars: p.vars,
                },
            ),
        }
    } else {
        primary_spec(toks, vars)
    }
}

/// `mul = unary (("*"|"/") unary)*`, left-associative.
#[verifier::opaque]
pub open spec fn mul_spec(toks: Seq<TokenView>, vars: Seq<Seq<char>>) -> Result<
    Parsed,
    ParseError,
>
    decreases toks.len(), 3nat,
{
    match unary_spec(toks, vars) {
        Err(e) => Err(e),
        Ok(l) => mul_tail(l.node, within(l.rest, toks), l.vars),
    }
}

/// The factors that follow `lhs`.
#[verifier::opaque]
pub open spec fn mul_tail(lhs: Ast, toks: Seq<TokenView>, vars: Seq<Seq<char>>) -> Result<
    Parsed,
    ParseError,
>
    decreases toks.len(), 2nat,
{
    if peek_is(toks, "*"@) {
        match unary_spec(toks.drop_first(), vars) {
            Err(e) => Err(e),
            Ok(r) => mul_tail(
                binary(BinOp::Mul, lhs, r.node),
                within(r.rest, toks.drop_first()),
                r.vars,
            ),
        }
    } else if peek_is(toks, "/"@) {
        match unary_spec(toks.drop_first(), vars) {
            Err(e) => Err(e),
            Ok(r) => mul_tail(
                binary(BinOp::Div, lhs, r.node),
                within(r.rest, toks.drop_first()),
                r.vars,
            ),
        }
    } else {
        Ok(Parsed { node: lhs, rest: toks, vars })
    }
}

/// `add = mul (("+"|"-") mul)*`, left-associative.
#[verifier::opaque]
pub open spec fn add_spec(toks: Seq<TokenView>, vars: Seq<Seq<char>>) -> Result<
    Parsed,
    ParseError,
>
    decreases toks.len(), 5nat,
{
    match mul_spec(toks, vars) {
        Err(e) => Err(e),
        Ok(l) => add_tail(l.node, within(l.rest, toks), l.vars),
    }
}

/// The terms that follow `lhs`.
#[verifier::opaque]
pub open spec fn add_tail(lhs: Ast, toks: Seq<TokenView>, vars: Seq<Seq<char>>) -> Result<
    Parsed,
    ParseError,
>
    decreases toks.len(), 4nat,
{
    if peek_is(toks, "+"@) {
        match mul_spec(toks.drop_first(), vars) {
            Err(e) => Err(e),
            Ok(r) => add_tail(
                binary(BinOp::Add, lhs, r.node),
                within(r.rest, toks.drop_first()),
                r.vars,
            ),
        }
    } else if peek_is(toks, "-"@) {
        match mul_spec(toks.drop_first(), vars) {
            Err(e) => Err(e),
            Ok(r) => add_tail(
                binary(BinOp::Sub, lhs, r.node),
                within(r.rest, toks.drop_first()),
                r.vars,
            ),
        }
    } else {
        Ok(Parsed { node: lhs, rest: toks, vars })
    }
}

/// `relational = add (("<"|"<="|">"|">=") add)*`, left-associative; `a > b`
/// and `a >= b` are read as `b < a` and `b <= a`.
#[verifier::opaque]
pub open spec fn relational_spec(toks: Seq<TokenView>, vars: Seq<Seq<char>>) -> Result<
    Parsed,
    ParseError,
>
    decreases toks.len(), 7nat,
{
    match add_spec(toks, vars) {
        Err(e) => Err(e),
        Ok(l) => relational_tail(l.node, within(l.rest, toks), l.vars),
    }
}

/// The comparisons that follow `lhs`.
#[verifier::opaque]
pub open spec fn relational_tail(lhs: Ast, toks: Seq<TokenView>, vars: Seq<Seq<char>>) -> Result<
    Parsed,
    ParseError,
>
    decreases toks.len(), 6nat,
{
    if peek_is(toks, "<"@) {
        match add_spec(toks.drop_first(), vars) {
            Err(e) => Err(e),
            Ok(r) => relational_tail(
                binary(BinOp::Lt, lhs, r.node),
                within(r.rest, toks.drop_first()),
                r.vars,
            ),
        }
    } else if peek_is(toks, "<="@) {
        match add_spec(toks.drop_first(), vars) {
            Err(e) => Err(e),
            Ok(r) => relational_tail(
                binary(BinOp::Le, lhs, r.node),
                within(r.rest, toks.drop_first()),
                r.vars,
            ),
        }
    } else if peek_is(toks, ">"@) {
        match add_spec(toks.drop_first(), vars) {
            Err(e) => Err(e),
            Ok(r) => relational_tail(
                binary(BinOp::Lt, r.node, lhs),
                within(r.rest, toks.drop_first()),
                r.vars,
            ),
        }
    } else if peek_is(toks, ">="@) {
        match add_spec(toks.drop_first(), vars) {
            Err(e) => Err(e),
            Ok(r) => relational_tail(
                binary(BinOp::Le, r.node, lhs),
                within(r.rest, toks.drop_first()),
                r.vars,
            ),
        }
    } else {
        Ok(Parsed { node: lhs, rest: toks, vars })
    }
}

/// `equality = relational (("=="|"!=") relational)*`, left-associative.
#[verifier::opaque]
pub open spec fn equality_spec(toks: Seq<TokenView>, vars: Seq<Seq<char>>) -> Result<
    Parsed,
    ParseError,
>
    decreases toks.len(), 9nat,
{
    match relational_spec(toks, vars) {
        Err(e) => Err(e),
        Ok(l) => equality_tail(l.node, within(l.rest, toks), l.vars),
    }
}

/// The comparisons that follow `lhs`.
#[verifier::opaque]
pub open spec fn equality_tail(lhs: Ast, toks: Seq<TokenView>, vars: Seq<Seq<char>>) -> Result<
    Parsed,
    ParseError,
>
    decreases toks.len(), 8nat,
{
    if peek_is(toks, "=="@) {
        match relational_spec(toks.drop_first(), vars) {
            Err(e) => Err(e),
            Ok(r) => equality_tail(
                binary(BinOp::Eq, lhs, r.node),
                within(r.rest, toks.drop_first()),
                r.vars,
            ),
        }
    } else if peek_is(toks, "!="@) {
        match relational_spec(toks.drop_first(), vars) {
            Err(e) => Err(e),
            Ok(r) => equality_tail(
                binary(BinOp::Ne, lhs, r.node),
                within(r.rest, toks.drop_first()),
                r.vars,
            ),
        }
    } else {
        Ok(Parsed { node: lhs, rest: toks, vars })
    }
}

/// `assign = equality ("=" assign)?`, right-associative.
#[verifier::opaque]
pub open spec fn assign_spec(toks: Seq<TokenView>, vars: Seq<Seq<char>>) -> Result<
    Parsed,
    ParseError,
>
    decreases toks.len(), 10nat,
{
    match equality_spec(toks, vars) {
        Err(e) => Err(e),
        Ok(l) => if peek_is(within(l.rest, toks), "="@) {
            match assign_spec(within(l.rest, toks).drop_first(), l.vars) {
                Err(e) => Err(e),
                Ok(r) => Ok(
                    Parsed {
                        node: Ast::Assign(Box::new(l.node), Box::new(r.node)),
                        rest: r.rest,
                        vars: r.vars,
                    },
                ),
            }
        } else {
            Ok(l)
        },
    }
}

/// `expr = assign`
#[verifier::opaque]
pub open spec fn expr_spec(toks: Seq<TokenView>, vars: Seq<Seq<char>>) -> Result<Parsed, ParseError>
    decreases toks.len(), 11nat,
{
    assign_spec(toks, vars)
}

/// An expression followed by `close`.
pub open spec fn closed_expr(toks: Seq<TokenView>, vars: Seq<Seq<char>>, close: Symbol) -> Result<
    Parsed,
    ParseError,
> {
    match expr_spec(toks, vars) {
        Err(e) => Err(e),
        Ok(p) => match expect_spec(p.rest, close) {
            Err(e) => Err(e),
            Ok(rest) => Ok(Parsed { node: p.node, rest, vars: p.vars }),
        },
    }
}

/// A clause of `for`: `close` alone, which reads as [`Ast::Nothing`], or an
/// expression followed by `close`.
pub open spec fn clause_spec(toks: Seq<TokenView>, vars: Seq<Seq<char>>, close: Symbol) -> Result<
    Parsed,
    ParseError,
> {
    if peek_is(toks, symbol_text(close)) {
        Ok(Parsed { node: Ast::Nothing, rest: toks.drop_first(), vars })
    } else {
        closed_expr(toks, vars, close)
    }
}

/// The parenthesized condition of `if` and `while`: `"(" expr ")"`.
pub open spec fn condition_spec(toks: Seq<TokenView>, vars: Seq<Seq<char>>) -> Result<
    Parsed,
    ParseError,
> {
    match expect_spec(toks, Symbol::LParen) {
        Err(e) => Err(e),
        Ok(inner) => closed_expr(inner, vars, Symbol::RParen),
    }
}

/// The head of `for`, after the keyword: `"(" expr? ";" expr? ";" expr? ")"`.
/// Gives the three clauses in order.
pub open spec fn for_clauses(toks: Seq<TokenView>, vars: Seq<Seq<char>>) -> Result<
    ParsedList,
    ParseError,
> {
    match expect_spec(toks, Symbol::LParen) {
        Err(e) => Err(e),
        Ok(inner) => match clause_spec(inner, vars, Symbol::Semicolon) {
            Err(e) => Err(e),
            Ok(init) => match clause_spec(init.rest, init.vars, Symbol::Semicolon) {
                Err(e) => Err(e),
                Ok(cond) => match clause_spec(cond.rest, cond.vars, Symbol::RParen) {
                    Err(e) => Err(e),
                    Ok(inc) => Ok(
                        ParsedList {
                            nodes: seq![init.node, cond.node, inc.node],
                            rest: inc.rest,
                            vars: inc.vars,
                        },
                    ),
                },
            },
        }
    }
}

/// ```text
/// stmt = expr ";"
///      | "{" stmt* "}"
///      | "if" "(" expr ")" stmt ("else" stmt)?
///      | "while" "(" expr ")" stmt
///      | "for" "(" expr? ";" expr? ";" expr? ")" stmt
///      | "return" expr ";"
/// ```
#[verifier::opaque]
pub open spec fn stmt_spec(toks: Seq<TokenView>, vars: Seq<Seq<char>>) -> Result<Parsed, ParseError>
    decreases toks.len(), 0nat,
{
    let after = toks.drop_first();
    if peek_kind(toks, TokenKind::TK_RETURN) {
        match closed_expr(after, vars, Symbol::Semicolon) {
            Err(e) => Err(e),
            Ok(p) => Ok(Parsed { node: Ast::Return(Box::new(p.node)), rest: p.rest, vars: p.vars }),
        }
    } else if peek_kind(toks, TokenKind::TK_IF) {
        if_spec(after, vars)
    } else if peek_kind(toks, TokenKind::TK_WHILE) {
        while_spec(after, vars)
    } else if peek_is(toks, "{"@) {
        match block_items(Seq::empty(), after, vars) {
            Err(e) => Err(e),
            Ok(l) => Ok(Parsed { node: Ast::Block(l.nodes), rest: l.rest, vars: l.vars }),
        }
    } else if peek_kind(toks, TokenKind::TK_FOR) {
        for_spec(after, vars)
    } else {
        closed_expr(toks, vars, Symbol::Semicolon)
    }
}

/// An `if` after its keyword: `"(" expr ")" stmt ("else" stmt)?`. Without
/// `else`, the alternative is [`Ast::Nothing`].
#[verifier::opaque]
pub open spec fn if_spec(toks: Seq<TokenView>, vars: Seq<Seq<char>>) -> Result<Parsed, ParseError>
    decreases toks.len(), 1nat,
{
    match condition_spec(toks, vars) {
        Err(e) => Err(e),
        Ok(c) => match stmt_spec(within(c.rest, toks), c.vars) {
            Err(e) => Err(e),
            Ok(s) => if peek_is(within(s.rest, toks), "else"@) {
                match stmt_spec(within(s.rest, toks).drop_first(), s.vars) {
                    Err(e) => Err(e),
                    Ok(a) => Ok(
                        Parsed {
                            node: Ast::If(Box::new(c.node), Box::new(s.node), Box::new(a.node)),
                            rest: a.rest,
                            vars: a.vars,
                        },
                    ),
                }
            } else {
                Ok(
                    Parsed {
                        node: Ast::If(Box::new(c.node), Box::new(s.node), Box::new(Ast::Nothing)),
                        rest: s.rest,
                        vars: s.vars,
                    },
                )
            },
        },
    }
}

/// A `while` loop after its keyword: `"(" expr ")" stmt`.
#[verifier::opaque]
pub open spec fn while_spec(toks: Seq<TokenView>, vars: Seq<Seq<char>>) -> Result<
    Parsed,
    ParseError,
>
    decreases toks.len(), 1nat,
{
    match condition_spec(toks, vars) {
        Err(e) => Err(e),
        Ok(c) => match stmt_spec(within(c.rest, toks), c.vars) {
            Err(e) => Err(e),
            Ok(s) => Ok(
                Parsed {
                    node: Ast::While(Box::new(c.node), Box::new(s.node)),
                    rest: s.rest,
                    vars: s.vars,
                },
            ),
        },
    }
}

/// A `for` loop after its keyword: `"(" expr? ";" expr? ";" expr? ")" stmt`.
#[verifier::opaque]
pub open spec fn for_spec(toks: Seq<TokenView>, vars: Seq<Seq<char>>) -> Result<Parsed, ParseError>
    decreases toks.len(), 1nat,
{
    match for_clauses(toks, vars) {
        Err(e) => Err(e),
        Ok(h) => match stmt_spec(within(h.rest, toks), h.vars) {
            Err(e) => Err(e),
            Ok(s) => Ok(
                Parsed {
                    node: Ast::For(
                        Box::new(h.nodes[0]),
                        Box::new(h.nodes[1]),
                        Box::new(h.nodes[2]),
                        Box::new(s.node),
                    ),
                    rest: s.rest,
                    vars: s.vars,
                },
            ),
        },
    }
}

/// The statements that follow `done` in a block or a function body, up to
/// and including the closing `}`. Where the input ends before that, the
/// statement that would come next lacks its first token.
#[verifier::opaque]
pub open spec fn block_items(done: Seq<Ast>, toks: Seq<TokenView>, vars: Seq<Seq<char>>) -> Result<
    ParsedList,
    ParseError,
>
    decreases toks.len(), 1nat,
{
    if peek_is(toks, "}"@) {
        Ok(ParsedList { nodes: done, rest: toks.drop_first(), vars })
    } else if toks.len() == 0 {
        Err(ParseError::MissingNumber { at_end: true })
    } else {
        match stmt_spec(toks, vars) {
            Err(e) => Err(e),
            Ok(s) => block_items(done.push(s.node), within(s.rest, toks.drop_first()), s.vars),
        }
    }
}

/// `params = ident ("," ident)*`, or nothing. Each parameter is a variable
/// of the function, in the order of the list.
pub open spec fn params_spec(toks: Seq<TokenView>, vars: Seq<Seq<char>>) -> Result<
    ParsedList,
    ParseError,
> {
    if peek_kind(toks, TokenKind::TK_IDENT) {
        match local_var_spec(toks[0].str, vars) {
            Err(e) => Err(e),
            Ok(slot) => params_tail(seq![Ast::Var(slot.0)], toks.drop_first(), slot.1),
        }
    } else {
        Ok(ParsedList { nodes: Seq::empty(), rest: toks, vars })
    }
}

/// The parameters that follow `done`: `("," ident)*`.
#[verifier::opaque]
pub open spec fn params_tail(done: Seq<Ast>, toks: Seq<TokenView>, vars: Seq<Seq<char>>) -> Result<
    ParsedList,
    ParseError,
>
    decreases toks.len(),
{
    if peek_is(toks, ","@) {
        let after = toks.drop_first();
        if peek_kind(after, TokenKind::TK_IDENT) {
            match local_var_spec(after[0].str, vars) {
                Err(e) => Err(e),
                Ok(slot) => params_tail(done.push(Ast::Var(slot.0)), after.drop_first(), slot.1),
            }
        } else {
            Err(ParseError::MissingParameter)
        }
    } else {
        Ok(ParsedList { nodes: done, rest: toks, vars })
    }
}

/// `function = ident "(" params? ")" "{" stmt* "}"`
///
/// The variables of a function are its own: the table of names starts empty.
/// The frame holds one eight-byte slot for each of them.
pub open spec fn function_spec(toks: Seq<TokenView>) -> Result<Parsed, ParseError> {
    if !peek_kind(toks, TokenKind::TK_IDENT) {
        Err(ParseError::MissingFunctionName)
    } else {
        match expect_spec(toks.drop_first(), Symbol::LParen) {
            Err(e) => Err(e),
            Ok(t1) => match params_spec(t1, Seq::empty()) {
                Err(e) => Err(e),
                Ok(ps) => match expect_spec(ps.rest, Symbol::RParen) {
                    Err(e) => Err(e),
                    Ok(t2) => match expect_spec(t2, Symbol::LBrace) {
                        Err(e) => Err(e),
                        Ok(t3) => match block_items(Seq::empty(), t3, ps.vars) {
                            Err(e) => Err(e),
                            Ok(b) => Ok(
                                Parsed {
                                    node: Ast::Function {
                                        name: toks[0].str,
                                        body: b.nodes,
                                        params: ps.nodes,
                                        frame: 8 * b.vars.len(),
                                    },
                                    rest: b.rest,
                                    vars: b.vars,
                                },
                            ),
                        },
                    },
                },
            },
        }
    }
}

/// `program = function*`: the functions that follow `done`, to the end of
/// the input.
#[verifier::opaque]
pub open spec fn functions_spec(done: Seq<Ast>, toks: Seq<TokenView>) -> Result<
    Seq<Ast>,
    ParseError,
>
    decreases toks.len(),
{
    if toks.len() == 0 {
        Ok(done)
    } else {
        match function_spec(toks) {
            Err(e) => Err(e),
            Ok(f) => functions_spec(done.push(f.node), within(f.rest, toks.drop_first())),
        }
    }
}

/// `program = function*`
pub open spec fn program_spec(toks: Seq<TokenView>) -> Result<Seq<Ast>, ParseError> {
    functions_spec(Seq::empty(), toks)
}

} // verus!
