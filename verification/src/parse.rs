//! The parser: a token sequence to the syntax trees of its functions, by
//! recursive descent. Variables get their stack slots while the tokens are
//! read.

use crate::grammar::{
    add_spec, add_tail, args_tail, assign_spec, binary, block_items, clause_spec, closed_expr,
    condition_spec, equality_spec, equality_tail, expect_number_spec, expect_spec, expr_spec,
    for_spec, func_args_spec, function_spec, functions_spec, if_spec, local_var_spec, max_vars,
    mul_spec, mul_tail, params_spec, params_tail, peek_is, peek_kind, position, primary_spec,
    program_spec, relational_spec, relational_tail, stmt_spec, symbol_str, symbol_text, unary_spec,
    while_spec, Ast, BinOp, ParseError, Parsed, ParsedList, Symbol,
};
use crate::grammar_laws::lemma_position;
use crate::text::same_text;
use crate::tokenize::{token_views, Token, TokenKind};
use std::collections::VecDeque;
use vstd::prelude::*;
use vstd::std_specs::vecdeque::VecDequeAdditionalSpecFns;

verus! {

/// A node of the syntax tree. Each node owns its children.
#[allow(non_camel_case_types)]
#[derive(Debug)]
pub enum Node {
    /// An optional clause that the source left out.
    ND_NOTHING,
    ND_ADD { lhs: Box<Node>, rhs: Box<Node> },
    ND_SUB { lhs: Box<Node>, rhs: Box<Node> },
    ND_MUL { lhs: Box<Node>, rhs: Box<Node> },
    ND_DIV { lhs: Box<Node>, rhs: Box<Node> },
    ND_ASSIGN { lhs: Box<Node>, rhs: Box<Node> },
    /// A local variable, by the byte offset of its slot.
    ND_LVAR { offset: u32 },
    ND_NUM(u32),
    ND_EQ { lhs: Box<Node>, rhs: Box<Node> },
    ND_NE { lhs: Box<Node>, rhs: Box<Node> },
    ND_LT { lhs: Box<Node>, rhs: Box<Node> },
    ND_LE { lhs: Box<Node>, rhs: Box<Node> },
    ND_RETURN { ret: Box<Node> },
    ND_IF { cond: Box<Node>, cons: Box<Node>, alt: Box<Node> },
    ND_WHILE { cond: Box<Node>, body: Box<Node> },
    ND_BLOCK { stmts: Vec<Node> },
    ND_FOR { init: Box<Node>, cond: Box<Node>, inc: Box<Node>, body: Box<Node> },
    ND_FUNCALL { name: String, args: Vec<Node> },
    /// A function definition; `stack_size` is the size of its locals in
    /// bytes.
    ND_FUNCTION { name: String, body: Vec<Node>, parameters: VecDeque<Node>, stack_size: u32 },
}

/// The tree that a node stands for.
pub open spec fn tree(n: Node) -> Ast
    decreases n,
{
    match n {
        Node::ND_NOTHING => Ast::Nothing,
        Node::ND_ADD { lhs, rhs } => binary(BinOp::Add, tree(*lhs), tree(*rhs)),
        Node::ND_SUB { lhs, rhs } => binary(BinOp::Sub, tree(*lhs), tree(*rhs)),
        Node::ND_MUL { lhs, rhs } => binary(BinOp::Mul, tree(*lhs), tree(*rhs)),
        Node::ND_DIV { lhs, rhs } => binary(BinOp::Div, tree(*lhs), tree(*rhs)),
        Node::ND_ASSIGN { lhs, rhs } => Ast::Assign(Box::new(tree(*lhs)), Box::new(tree(*rhs))),
        Node::ND_LVAR { offset } => Ast::Var(offset as nat),
        Node::ND_NUM(val) => Ast::Num(val as nat),
        Node::ND_EQ { lhs, rhs } => binary(BinOp::Eq, tree(*lhs), tree(*rhs)),
        Node::ND_NE { lhs, rhs } => binary(BinOp::Ne, tree(*lhs), tree(*rhs)),
        Node::ND_LT { lhs, rhs } => binary(BinOp::Lt, tree(*lhs), tree(*rhs)),
        Node::ND_LE { lhs, rhs } => binary(BinOp::Le, tree(*lhs), tree(*rhs)),
        Node::ND_RETURN { ret } => Ast::Return(Box::new(tree(*ret))),
        Node::ND_IF { cond, cons, alt } => Ast::If(
            Box::new(tree(*cond)),
            Box::new(tree(*cons)),
            Box::new(tree(*alt)),
        ),
        Node::ND_WHILE { cond, body } => Ast::While(Box::new(tree(*cond)), Box::new(tree(*body))),
        Node::ND_BLOCK { stmts } => Ast::Block(
            Seq::new(
                stmts.len() as nat,
                |i: int|
                    if 0 <= i < stmts.len() {
                        tree(stmts[i])
                    } else {
                        Ast::Nothing
                    },
            ),
        ),
        Node::ND_FOR { init, cond, inc, body } => Ast::For(
            Box::new(tree(*init)),
            Box::new(tree(*cond)),
            Box::new(tree(*inc)),
            Box::new(tree(*body)),
        ),
        Node::ND_FUNCALL { name, args } => Ast::Call(
            name@,
            Seq::new(
                args.len() as nat,
                |i: int|
                    if 0 <= i < args.len() {
                        tree(args[i])
                    } else {
                        Ast::Nothing
                    },
            ),
        ),
        Node::ND_FUNCTION { name, body, parameters, stack_size } => Ast::Function {
            name: name@,
            body: Seq::new(
                body.len() as nat,
                |i: int|
                    if 0 <= i < body.len() {
                        tree(body[i])
                    } else {
                        Ast::Nothing
                    },
            ),
            params: Seq::new(
                parameters.len() as nat,
                |i: int|
                    if 0 <= i < parameters.len() {
                        tree(parameters[i])
                    } else {
                        Ast::Nothing
                    },
            ),
            frame: stack_size as nat,
        },
    }
}

impl View for Node {
    type V = Ast;

    open spec fn view(&self) -> Ast {
        tree(*self)
    }
}

/// The trees of a sequence of nodes, in order.
pub open spec fn trees(nodes: Seq<Node>) -> Seq<Ast> {
    Seq::new(nodes.len(), |i: int| tree(nodes[i]))
}

/// The children of a block, of a call and of a function are the trees of
/// the nodes they hold.
pub proof fn lemma_tree_children(n: Node)
    ensures
        n matches Node::ND_BLOCK { stmts } ==> tree(n) == Ast::Block(trees(stmts@)),
        n matches Node::ND_FUNCALL { name, args } ==> tree(n) == Ast::Call(name@, trees(args@)),
        n matches Node::ND_FUNCTION { name, body, parameters, stack_size } ==> tree(n)
            == (Ast::Function {
            name: name@,
            body: trees(body@),
            params: trees(parameters@),
            frame: stack_size as nat,
        }),
{
    match n {
        Node::ND_BLOCK { stmts } => {
            assert(tree(n)->Block_0 =~= trees(stmts@));
        },
        Node::ND_FUNCALL { name, args } => {
            assert(tree(n)->Call_1 =~= trees(args@));
        },
        Node::ND_FUNCTION { name, body, parameters, stack_size } => {
            assert(tree(n)->body =~= trees(body@));
            assert(tree(n)->params =~= trees(parameters@));
        },
        _ => {},
    }
}

/// Copies of the nodes `nodes`, in order.
fn clone_nodes(nodes: &Vec<Node>) -> (copies: Vec<Node>)
    ensures
        trees(copies@) == trees(nodes@),
    decreases nodes, 0nat,
{
    let mut copies: Vec<Node> = Vec::new();
    let mut i: usize = 0;
    while i < nodes.len()
        invariant
            i <= nodes.len(),
            copies@.len() == i,
            forall|k: int| 0 <= k < i ==> tree(#[trigger] copies@[k]) == tree(nodes@[k]),
        decreases nodes.len() - i,
    {
        let copy = clone_node(&nodes[i]);
        copies.push(copy);
        i += 1;
    }
    assert(trees(copies@) =~= trees(nodes@));
    copies
}

/// Copies of the parameters `nodes`, in order.
fn clone_parameters(nodes: &VecDeque<Node>) -> (copies: VecDeque<Node>)
    ensures
        trees(copies@) == trees(nodes@),
    decreases nodes, 0nat,
{
    let mut copies: VecDeque<Node> = VecDeque::new();
    let mut i: usize = 0;
    while i < nodes.len()
        invariant
            i <= nodes.len(),
            copies@.len() == i,
            forall|k: int| 0 <= k < i ==> tree(#[trigger] copies@[k]) == tree(nodes@[k]),
        decreases nodes.len() - i,
    {
        let copy = clone_node(&nodes[i]);
        copies.push_back(copy);
        i += 1;
    }
    assert(trees(copies@) =~= trees(nodes@));
    copies
}

/// A copy of the node `node`, with copies of all its children.
fn clone_node(node: &Node) -> (copy: Node)
    ensures
        copy@ == node@,
    decreases node, 1nat,
{
    proof {
        lemma_tree_children(*node);
    }
    let copy = match node {
        Node::ND_NOTHING => Node::ND_NOTHING,
        Node::ND_ADD { lhs, rhs } => Node::ND_ADD {
            lhs: Box::new(clone_node(lhs)),
            rhs: Box::new(clone_node(rhs)),
        },
        Node::ND_SUB { lhs, rhs } => Node::ND_SUB {
            lhs: Box::new(clone_node(lhs)),
            rhs: Box::new(clone_node(rhs)),
        },
        Node::ND_MUL { lhs, rhs } => Node::ND_MUL {
            lhs: Box::new(clone_node(lhs)),
            rhs: Box::new(clone_node(rhs)),
        },
        Node::ND_DIV { lhs, rhs } => Node::ND_DIV {
            lhs: Box::new(clone_node(lhs)),
            rhs: Box::new(clone_node(rhs)),
        },
        Node::ND_ASSIGN { lhs, rhs } => Node::ND_ASSIGN {
            lhs: Box::new(clone_node(lhs)),
            rhs: Box::new(clone_node(rhs)),
        },
        Node::ND_LVAR { offset } => Node::ND_LVAR { offset: *offset },
        Node::ND_NUM(val) => Node::ND_NUM(*val),
        Node::ND_EQ { lhs, rhs } => Node::ND_EQ {
            lhs: Box::new(clone_node(lhs)),
            rhs: Box::new(clone_node(rhs)),
        },
        Node::ND_NE { lhs, rhs } => Node::ND_NE {
            lhs: Box::new(clone_node(lhs)),
            rhs: Box::new(clone_node(rhs)),
        },
        Node::ND_LT { lhs, rhs } => Node::ND_LT {
            lhs: Box::new(clone_node(lhs)),
            rhs: Box::new(clone_node(rhs)),
        },
        Node::ND_LE { lhs, rhs } => Node::ND_LE {
            lhs: Box::new(clone_node(lhs)),
            rhs: Box::new(clone_node(rhs)),
        },
        Node::ND_RETURN { ret } => Node::ND_RETURN { ret: Box::new(clone_node(ret)) },
        Node::ND_IF { cond, cons, alt } => Node::ND_IF {
            cond: Box::new(clone_node(cond)),
            cons: Box::new(clone_node(cons)),
            alt: Box::new(clone_node(alt)),
        },
        Node::ND_WHILE { cond, body } => Node::ND_WHILE {
            cond: Box::new(clone_node(cond)),
            body: Box::new(clone_node(body)),
        },
        Node::ND_BLOCK { stmts } => Node::ND_BLOCK { stmts: clone_nodes(stmts) },
        Node::ND_FOR { init, cond, inc, body } => Node::ND_FOR {
            init: Box::new(clone_node(init)),
            cond: Box::new(clone_node(cond)),
            inc: Box::new(clone_node(inc)),
            body: Box::new(clone_node(body)),
        },
        Node::ND_FUNCALL { name, args } => Node::ND_FUNCALL {
            name: name.clone(),
            args: clone_nodes(args),
        },
        Node::ND_FUNCTION { name, body, parameters, stack_size } => Node::ND_FUNCTION {
            name: name.clone(),
            body: clone_nodes(body),
            parameters: clone_parameters(parameters),
            stack_size: *stack_size,
        },
    };
    proof {
        lemma_tree_children(copy);
    }
    copy
}

impl Clone for Node {
    /// A copy of the whole tree under this node.
    fn clone(&self) -> (copy: Node)
        ensures
            copy@ == self@,
    {
        clone_node(self)
    }
}

/// A variable of the function that is being parsed, and the byte offset of
/// its slot in the frame.
#[derive(Clone, Debug)]
pub struct LVar {
    pub name: String,
    pub offset: u32,
}

/// The names in a table of variables, oldest first. The table itself holds
/// the newest variable at its front.
#[verifier::opaque]
pub open spec fn var_names(lvars: Seq<LVar>) -> Seq<Seq<char>> {
    Seq::new(lvars.len(), |i: int| lvars[lvars.len() - 1 - i].name@)
}

/// What holds of every table of variables that the parser builds: no name
/// occurs twice, and the slots lie eight bytes apart in the order in which
/// the variables first appeared, the oldest at offset zero.
#[verifier::opaque]
pub open spec fn lvars_wf(lvars: Seq<LVar>) -> bool {
    &&& lvars.len() <= max_vars()
    &&& var_names(lvars).no_duplicates()
    &&& forall|j: int|
        0 <= j < lvars.len() ==> (#[trigger] lvars[j]).offset == 8 * (lvars.len() - 1 - j)
}

/// [`max_vars`], as a number to test against.
pub const MAX_VARS: usize = 0x1fff_ffff;

/// Whether the next token is the reserved word or operator `op`; if so, it
/// is removed.
pub fn consume(tokens: &mut VecDeque<Token>, op: &str) -> (hit: bool)
    ensures
        hit == peek_is(token_views(old(tokens)@), op@),
        hit ==> token_views(final(tokens)@) == token_views(old(tokens)@).drop_first(),
        !hit ==> final(tokens)@ == old(tokens)@,
{
    reveal(token_views);
    if tokens.len() > 0 {
        let hit = tokens[0].kind == TokenKind::TK_RESERVED && same_text(&tokens[0].str, op);
        if hit {
            let _ = tokens.pop_front();
            assert(token_views(tokens@) =~= token_views(old(tokens)@).drop_first());
            return true;
        }
    }
    false
}

/// The next token, removed, if it is of kind `tkind`.
pub fn consume_tk(tokens: &mut VecDeque<Token>, tkind: TokenKind) -> (taken: Option<Token>)
    ensures
        taken is Some == peek_kind(token_views(old(tokens)@), tkind),
        taken matches Some(token) ==> {
            &&& token@ == token_views(old(tokens)@)[0]
            &&& token_views(final(tokens)@) == token_views(old(tokens)@).drop_first()
        },
        taken is None ==> final(tokens)@ == old(tokens)@,
{
    reveal(token_views);
    if tokens.len() > 0 {
        if tokens[0].kind == tkind {
            let taken = tokens.pop_front();
            assert(token_views(tokens@) =~= token_views(old(tokens)@).drop_first());
            return taken;
        }
    }
    None
}

/// Removes `symbol`, which must be the next token.
pub fn expect(tokens: &mut VecDeque<Token>, symbol: Symbol) -> (r: Result<(), ParseError>)
    ensures
        match expect_spec(token_views(old(tokens)@), symbol) {
            Ok(rest) => r is Ok && token_views(final(tokens)@) == rest,
            Err(e) => r is Err && r->Err_0 == e && final(tokens)@ == old(tokens)@,
        },
{
    reveal(token_views);
    if consume(tokens, symbol_str(symbol)) {
        Ok(())
    } else {
        Err(ParseError::Missing { symbol, at_end: tokens.len() == 0 })
    }
}

/// Removes the integer literal that must be the next token, and gives its
/// value.
pub fn expect_number(tokens: &mut VecDeque<Token>) -> (r: Result<u32, ParseError>)
    ensures
        match expect_number_spec(token_views(old(tokens)@)) {
            Ok(val) => r == Ok::<u32, ParseError>(val) && token_views(final(tokens)@)
                == token_views(old(tokens)@).drop_first(),
            Err(e) => r is Err && r->Err_0 == e && final(tokens)@ == old(tokens)@,
        },
{
    reveal(token_views);
    if tokens.len() == 0 {
        return Err(ParseError::MissingNumber { at_end: true });
    }
    if tokens[0].kind == TokenKind::TK_NUM {
        if let Some(val) = tokens[0].val {
            let _ = tokens.pop_front();
            assert(token_views(tokens@) =~= token_views(old(tokens)@).drop_first());
            return Ok(val);
        }
    }
    Err(ParseError::MissingNumber { at_end: false })
}

/// The variable that `token` names, if the table holds it.
pub fn find_lvar(token: &Token, lvars: &VecDeque<LVar>) -> (found: Option<LVar>)
    requires
        lvars_wf(lvars@),
    ensures
        found is Some == (position(var_names(lvars@), token.str@) < lvars@.len()),
        found matches Some(lvar) ==> lvar.name@ == token.str@ && lvar.offset == 8 * position(
            var_names(lvars@),
            token.str@,
        ),
{
    reveal(var_names);
    reveal(lvars_wf);
    let ghost names = var_names(lvars@);
    let n: usize = lvars.len();
    let mut j: usize = 0;
    while j < n
        invariant
            j <= n == lvars@.len(),
            names == var_names(lvars@),
            lvars_wf(lvars@),
            forall|i: int| n - j <= i < n ==> names[i] != token.str@,
        decreases n - j,
    {
        reveal(var_names);
        reveal(lvars_wf);
        if token.str == lvars[j].name {
            proof {
                lemma_position(names, token.str@);
                let k = position(names, token.str@) as int;
                assert(names[n - 1 - j] == token.str@);
                assert(k <= n - 1 - j);
                assert(k == n - 1 - j);
            }
            return Some(LVar { name: lvars[j].name.clone(), offset: lvars[j].offset });
        }
        j += 1;
    }
    proof {
        lemma_position(names, token.str@);
    }
    None
}

/// A tree and what is left after it, as the grammar gives them, against a
/// node and the state of the parser.
pub open spec fn parsed(
    spec: Result<Parsed, ParseError>,
    r: Result<Node, ParseError>,
    tokens: Seq<Token>,
    lvars: Seq<LVar>,
) -> bool {
    match spec {
        Ok(p) => {
            &&& r is Ok
            &&& r->Ok_0@ == p.node
            &&& token_views(tokens) == p.rest
            &&& var_names(lvars) == p.vars
            &&& lvars_wf(lvars)
        },
        Err(e) => r is Err && r->Err_0 == e,
    }
}

/// Like [`parsed`], for a list of trees.
pub open spec fn parsed_list(
    spec: Result<ParsedList, ParseError>,
    r: Result<Vec<Node>, ParseError>,
    tokens: Seq<Token>,
    lvars: Seq<LVar>,
) -> bool {
    match spec {
        Ok(p) => {
            &&& r is Ok
            &&& trees(r->Ok_0@) == p.nodes
            &&& token_views(tokens) == p.rest
            &&& var_names(lvars) == p.vars
            &&& lvars_wf(lvars)
        },
        Err(e) => r is Err && r->Err_0 == e,
    }
}

/// The variable that `token` names: the one of that name in the table, or
/// else a new one at the table's front, in the next free slot.
pub fn local_var(token: Token, lvars: &mut VecDeque<LVar>) -> (r: Result<Node, ParseError>)
    requires
        lvars_wf(old(lvars)@),
    ensures
        match local_var_spec(token.str@, var_names(old(lvars)@)) {
            Ok(slot) => {
                &&& r is Ok
                &&& r->Ok_0@ == Ast::Var(slot.0)
                &&& var_names(final(lvars)@) == slot.1
                &&& lvars_wf(final(lvars)@)
            },
            Err(e) => r is Err && r->Err_0 == e,
        },
{
    reveal(var_names);
    reveal(lvars_wf);
    let ghost names = var_names(lvars@);
    match find_lvar(&token, lvars) {
        Some(lvar) => Ok(Node::ND_LVAR { offset: lvar.offset }),
        None => {
            if lvars.len() >= MAX_VARS {
                return Err(ParseError::TooManyVariables);
            }
            let offset: u32 = if lvars.len() > 0 {
                lvars[0].offset + 8
            } else {
                0
            };
            let ghost name = token.str@;
            lvars.push_front(LVar { name: token.str, offset });
            proof {
                lemma_position(names, name);
                assert(var_names(lvars@) =~= names.push(name));
            }
            Ok(Node::ND_LVAR { offset })
        },
    }
}

/// An operand: a number, a variable, a call, or an expression in
/// parentheses.
#[verifier::spinoff_prover]
pub fn primary(tokens: &mut VecDeque<Token>, lvars: &mut VecDeque<LVar>) -> (r: Result<
    Node,
    ParseError,
>)
    requires
        lvars_wf(old(lvars)@),
    ensures
        parsed(
            primary_spec(token_views(old(tokens)@), var_names(old(lvars)@)),
            r,
            final(tokens)@,
            final(lvars)@,
        ),
        r is Ok ==> token_views(final(tokens)@).len() < token_views(old(tokens)@).len(),
    decreases token_views(old(tokens)@).len(), 0nat,
{
    reveal(primary_spec);
    reveal(expr_spec);
    reveal(func_args_spec);
    if consume(tokens, "(") {
        let node: Node = expr(tokens, lvars)?;
        expect(tokens, Symbol::RParen)?;
        return Ok(node);
    }
    if let Some(token) = consume_tk(tokens, TokenKind::TK_IDENT) {
        if consume(tokens, "(") {
            let args: Vec<Node> = func_args(tokens, lvars)?;
            let node = Node::ND_FUNCALL { name: token.str, args };
            proof {
                lemma_tree_children(node);
            }
            return Ok(node);
        }
        return local_var(token, lvars);
    }
    let val: u32 = expect_number(tokens)?;
    Ok(Node::ND_NUM(val))
}

/// The arguments of a call whose `(` has been read, through its `)`.
#[verifier::spinoff_prover]
pub fn func_args(tokens: &mut VecDeque<Token>, lvars: &mut VecDeque<LVar>) -> (r: Result<
    Vec<Node>,
    ParseError,
>)
    requires
        lvars_wf(old(lvars)@),
    ensures
        parsed_list(
            func_args_spec(token_views(old(tokens)@), var_names(old(lvars)@)),
            r,
            final(tokens)@,
            final(lvars)@,
        ),
        r is Ok ==> token_views(final(tokens)@).len() < token_views(old(tokens)@).len(),
    decreases token_views(old(tokens)@).len(), 11nat,
{
    reveal(func_args_spec);
    reveal(args_tail);
    reveal(assign_spec);
    let ghost goal = func_args_spec(token_views(tokens@), var_names(lvars@));
    let ghost len0 = token_views(tokens@).len();
    let mut args: Vec<Node> = Vec::new();
    if consume(tokens, ")") {
        assert(trees(args@) =~= Seq::<Ast>::empty());
        return Ok(args);
    }
    let first: Node = assign(tokens, lvars)?;
    let ghost first_tree = first@;
    args.push(first);
    assert(trees(args@) =~= seq![first_tree]);
    loop
        invariant
            lvars_wf(lvars@),
            token_views(tokens@).len() < len0,
            len0 == token_views(old(tokens)@).len(),
            goal == func_args_spec(token_views(old(tokens)@), var_names(old(lvars)@)),
            goal == args_tail(trees(args@), token_views(tokens@), var_names(lvars@)),
        decreases token_views(tokens@).len(),
    {
        reveal(args_tail);
        reveal(assign_spec);
        if consume(tokens, ",") {
            let ghost before = trees(args@);
            let arg: Node = assign(tokens, lvars)?;
            let ghost arg_tree = arg@;
            args.push(arg);
            assert(trees(args@) =~= before.push(arg_tree));
        } else {
            expect(tokens, Symbol::RParen)?;
            return Ok(args);
        }
    }
}

/// An operand with an optional sign: `-x` becomes `0 - x`, `+x` is `x`.
#[verifier::spinoff_prover]
pub fn unary(tokens: &mut VecDeque<Token>, lvars: &mut VecDeque<LVar>) -> (r: Result<
    Node,
    ParseError,
>)
    requires
        lvars_wf(old(lvars)@),
    ensures
        parsed(
            unary_spec(token_views(old(tokens)@), var_names(old(lvars)@)),
            r,
            final(tokens)@,
            final(lvars)@,
        ),
        r is Ok ==> token_views(final(tokens)@).len() < token_views(old(tokens)@).len(),
    decreases token_views(old(tokens)@).len(), 1nat,
{
    reveal(unary_spec);
    reveal(primary_spec);
    if consume(tokens, "+") {
        primary(tokens, lvars)
    } else if consume(tokens, "-") {
        let operand: Node = primary(tokens, lvars)?;
        let zero = Node::ND_NUM(0);
        assert(zero@ == Ast::Num(0));
        Ok(Node::ND_SUB { lhs: Box::new(zero), rhs: Box::new(operand) })
    } else {
        primary(tokens, lvars)
    }
}

/// A product or quotient of operands, grouped from the left.
#[verifier::spinoff_prover]
pub fn mul(tokens: &mut VecDeque<Token>, lvars: &mut VecDeque<LVar>) -> (r: Result<
    Node,
    ParseError,
>)
    requires
        lvars_wf(old(lvars)@),
    ensures
        parsed(
            mul_spec(token_views(old(tokens)@), var_names(old(lvars)@)),
            r,
            final(tokens)@,
            final(lvars)@,
        ),
        r is Ok ==> token_views(final(tokens)@).len() < token_views(old(tokens)@).len(),
    decreases token_views(old(tokens)@).len(), 3nat,
{
    reveal(mul_spec);
    reveal(mul_tail);
    reveal(unary_spec);
    let ghost goal = mul_spec(token_views(tokens@), var_names(lvars@));
    let ghost len0 = token_views(tokens@).len();
    let mut node: Node = unary(tokens, lvars)?;
    loop
        invariant
            lvars_wf(lvars@),
            token_views(tokens@).len() < len0,
            len0 == token_views(old(tokens)@).len(),
            goal == mul_spec(token_views(old(tokens)@), var_names(old(lvars)@)),
            goal == mul_tail(node@, token_views(tokens@), var_names(lvars@)),
        decreases token_views(tokens@).len(),
    {
        reveal(mul_tail);
        reveal(unary_spec);
        if consume(tokens, "*") {
            let rhs: Node = unary(tokens, lvars)?;
            node = Node::ND_MUL { lhs: Box::new(node), rhs: Box::new(rhs) };
        } else if consume(tokens, "/") {
            let rhs: Node = unary(tokens, lvars)?;
            node = Node::ND_DIV { lhs: Box::new(node), rhs: Box::new(rhs) };
        } else {
            return Ok(node);
        }
    }
}

/// A sum or difference of products, grouped from the left.
#[verifier::spinoff_prover]
pub fn add(tokens: &mut VecDeque<Token>, lvars: &mut VecDeque<LVar>) -> (r: Result<
    Node,
    ParseError,
>)
    requires
        lvars_wf(old(lvars)@),
    ensures
        parsed(
            add_spec(token_views(old(tokens)@), var_names(old(lvars)@)),
            r,
            final(tokens)@,
            final(lvars)@,
        ),
        r is Ok ==> token_views(final(tokens)@).len() < token_views(old(tokens)@).len(),
    decreases token_views(old(tokens)@).len(), 5nat,
{
    reveal(add_spec);
    reveal(add_tail);
    reveal(mul_spec);
    let ghost goal = add_spec(token_views(tokens@), var_names(lvars@));
    let ghost len0 = token_views(tokens@).len();
    let mut node: Node = self::mul(tokens, lvars)?;
    loop
        invariant
            lvars_wf(lvars@),
            token_views(tokens@).len() < len0,
            len0 == token_views(old(tokens)@).len(),
            goal == add_spec(token_views(old(tokens)@), var_names(old(lvars)@)),
            goal == add_tail(node@, token_views(tokens@), var_names(lvars@)),
        decreases token_views(tokens@).len(),
    {
        reveal(add_tail);
        reveal(mul_spec);
        if consume(tokens, "+") {
            let rhs: Node = self::mul(tokens, lvars)?;
            node = Node::ND_ADD { lhs: Box::new(node), rhs: Box::new(rhs) };
        } else if consume(tokens, "-") {
            let rhs: Node = self::mul(tokens, lvars)?;
            node = Node::ND_SUB { lhs: Box::new(node), rhs: Box::new(rhs) };
        } else {
            return Ok(node);
        }
    }
}

/// A chain of order comparisons, grouped from the left. `a > b` and `a >= b`
/// become `b < a` and `b <= a`.
#[verifier::spinoff_prover]
pub fn relational(tokens: &mut VecDeque<Token>, lvars: &mut VecDeque<LVar>) -> (r: Result<
    Node,
    ParseError,
>)
    requires
        lvars_wf(old(lvars)@),
    ensures
        parsed(
            relational_spec(token_views(old(tokens)@), var_names(old(lvars)@)),
            r,
            final(tokens)@,
            final(lvars)@,
        ),
        r is Ok ==> token_views(final(tokens)@).len() < token_views(old(tokens)@).len(),
    decreases token_views(old(tokens)@).len(), 7nat,
{
    reveal(relational_spec);
    reveal(relational_tail);
    reveal(add_spec);
    let ghost goal = relational_spec(token_views(tokens@), var_names(lvars@));
    let ghost len0 = token_views(tokens@).len();
    let mut node: Node = self::add(tokens, lvars)?;
    loop
        invariant
            lvars_wf(lvars@),
            token_views(tokens@).len() < len0,
            len0 == token_views(old(tokens)@).len(),
            goal == relational_spec(token_views(old(tokens)@), var_names(old(lvars)@)),
            goal == relational_tail(node@, token_views(tokens@), var_names(lvars@)),
        decreases token_views(tokens@).len(),
    {
        reveal(relational_tail);
        reveal(add_spec);
        let less: bool;
        let swap: bool;
        if consume(tokens, "<") {
            less = true;
            swap = false;
        } else if consume(tokens, "<=") {
            less = false;
            swap = false;
        } else if consume(tokens, ">") {
            less = true;
            swap = true;
        } else if consume(tokens, ">=") {
            less = false;
            swap = true;
        } else {
            return Ok(node);
        }
        let rhs: Node = self::add(tokens, lvars)?;
        let (lhs, rhs) = if swap {
            (rhs, node)
        } else {
            (node, rhs)
        };
        node = if less {
            Node::ND_LT { lhs: Box::new(lhs), rhs: Box::new(rhs) }
        } else {
            Node::ND_LE { lhs: Box::new(lhs), rhs: Box::new(rhs) }
        };
    }
}

/// A chain of `==` and `!=`, grouped from the left.
#[verifier::spinoff_prover]
pub fn equality(tokens: &mut VecDeque<Token>, lvars: &mut VecDeque<LVar>) -> (r: Result<
    Node,
    ParseError,
>)
    requires
        lvars_wf(old(lvars)@),
    ensures
        parsed(
            equality_spec(token_views(old(tokens)@), var_names(old(lvars)@)),
            r,
            final(tokens)@,
            final(lvars)@,
        ),
        r is Ok ==> token_views(final(tokens)@).len() < token_views(old(tokens)@).len(),
    decreases token_views(old(tokens)@).len(), 9nat,
{
    reveal(equality_spec);
    reveal(equality_tail);
    reveal(relational_spec);
    let ghost goal = equality_spec(token_views(tokens@), var_names(lvars@));
    let ghost len0 = token_views(tokens@).len();
    let mut node: Node = relational(tokens, lvars)?;
    loop
        invariant
            lvars_wf(lvars@),
            token_views(tokens@).len() < len0,
            len0 == token_views(old(tokens)@).len(),
            goal == equality_spec(token_views(old(tokens)@), var_names(old(lvars)@)),
            goal == equality_tail(node@, token_views(tokens@), var_names(lvars@)),
        decreases token_views(tokens@).len(),
    {
        reveal(equality_tail);
        reveal(relational_spec);
        if consume(tokens, "==") {
            let rhs: Node = relational(tokens, lvars)?;
            node = Node::ND_EQ { lhs: Box::new(node), rhs: Box::new(rhs) };
        } else if consume(tokens, "!=") {
            let rhs: Node = relational(tokens, lvars)?;
            node = Node::ND_NE { lhs: Box::new(node), rhs: Box::new(rhs) };
        } else {
            return Ok(node);
        }
    }
}

/// An assignment, grouped from the right, or what stands on its left alone.
#[verifier::spinoff_prover]
pub fn assign(tokens: &mut VecDeque<Token>, lvars: &mut VecDeque<LVar>) -> (r: Result<
    Node,
    ParseError,
>)
    requires
        lvars_wf(old(lvars)@),
    ensures
        parsed(
            assign_spec(token_views(old(tokens)@), var_names(old(lvars)@)),
            r,
            final(tokens)@,
            final(lvars)@,
        ),
        r is Ok ==> token_views(final(tokens)@).len() < token_views(old(tokens)@).len(),
    decreases token_views(old(tokens)@).len(), 10nat,
{
    reveal(assign_spec);
    reveal(equality_spec);
    let node: Node = equality(tokens, lvars)?;
    if consume(tokens, "=") {
        let value: Node = assign(tokens, lvars)?;
        return Ok(Node::ND_ASSIGN { lhs: Box::new(node), rhs: Box::new(value) });
    }
    Ok(node)
}

/// An expression.
#[verifier::spinoff_prover]
pub fn expr(tokens: &mut VecDeque<Token>, lvars: &mut VecDeque<LVar>) -> (r: Result<
    Node,
    ParseError,
>)
    requires
        lvars_wf(old(lvars)@),
    ensures
        parsed(
            expr_spec(token_views(old(tokens)@), var_names(old(lvars)@)),
            r,
            final(tokens)@,
            final(lvars)@,
        ),
        r is Ok ==> token_views(final(tokens)@).len() < token_views(old(tokens)@).len(),
    decreases token_views(old(tokens)@).len(), 11nat,
{
    reveal(expr_spec);
    reveal(assign_spec);
    assign(tokens, lvars)
}

/// An expression and the `close` that must follow it.
pub fn expr_until(tokens: &mut VecDeque<Token>, lvars: &mut VecDeque<LVar>, close: Symbol) -> (r:
    Result<Node, ParseError>)
    requires
        lvars_wf(old(lvars)@),
    ensures
        parsed(
            closed_expr(token_views(old(tokens)@), var_names(old(lvars)@), close),
            r,
            final(tokens)@,
            final(lvars)@,
        ),
        r is Ok ==> token_views(final(tokens)@).len() < token_views(old(tokens)@).len(),
{
    let node: Node = expr(tokens, lvars)?;
    expect(tokens, close)?;
    Ok(node)
}

/// A clause of `for` that ends with `close`: an expression, or nothing at
/// all, which gives `ND_NOTHING`.
pub fn clause(tokens: &mut VecDeque<Token>, lvars: &mut VecDeque<LVar>, close: Symbol) -> (r:
    Result<Node, ParseError>)
    requires
        lvars_wf(old(lvars)@),
    ensures
        parsed(
            clause_spec(token_views(old(tokens)@), var_names(old(lvars)@), close),
            r,
            final(tokens)@,
            final(lvars)@,
        ),
        r is Ok ==> token_views(final(tokens)@).len() < token_views(old(tokens)@).len(),
{
    if consume(tokens, symbol_str(close)) {
        Ok(Node::ND_NOTHING)
    } else {
        expr_until(tokens, lvars, close)
    }
}

/// The parenthesized condition of `if` and `while`.
pub fn condition(tokens: &mut VecDeque<Token>, lvars: &mut VecDeque<LVar>) -> (r: Result<
    Node,
    ParseError,
>)
    requires
        lvars_wf(old(lvars)@),
    ensures
        parsed(
            condition_spec(token_views(old(tokens)@), var_names(old(lvars)@)),
            r,
            final(tokens)@,
            final(lvars)@,
        ),
        r is Ok ==> token_views(final(tokens)@).len() < token_views(old(tokens)@).len(),
{
    expect(tokens, Symbol::LParen)?;
    expr_until(tokens, lvars, Symbol::RParen)
}

/// Whether no token is left.
pub fn at_end(tokens: &VecDeque<Token>) -> (b: bool)
    ensures
        b == (token_views(tokens@).len() == 0),
{
    reveal(token_views);
    tokens.len() == 0
}

/// A statement: `return`, `if`, `while`, `for`, a block, or an expression
/// followed by `;`.
#[verifier::spinoff_prover]
pub fn stmt(tokens: &mut VecDeque<Token>, lvars: &mut VecDeque<LVar>) -> (r: Result<
    Node,
    ParseError,
>)
    requires
        lvars_wf(old(lvars)@),
    ensures
        parsed(
            stmt_spec(token_views(old(tokens)@), var_names(old(lvars)@)),
            r,
            final(tokens)@,
            final(lvars)@,
        ),
        r is Ok ==> token_views(final(tokens)@).len() < token_views(old(tokens)@).len(),
    decreases token_views(old(tokens)@).len(), 0nat,
{
    reveal(stmt_spec);
    reveal(if_spec);
    reveal(while_spec);
    reveal(for_spec);
    reveal(block_items);
    if consume_tk(tokens, TokenKind::TK_RETURN).is_some() {
        let value: Node = expr_until(tokens, lvars, Symbol::Semicolon)?;
        return Ok(Node::ND_RETURN { ret: Box::new(value) });
    }
    if consume_tk(tokens, TokenKind::TK_IF).is_some() {
        return if_stmt(tokens, lvars);
    }
    if consume_tk(tokens, TokenKind::TK_WHILE).is_some() {
        return while_stmt(tokens, lvars);
    }
    if consume(tokens, "{") {
        let stmts: Vec<Node> = statements(tokens, lvars)?;
        let node = Node::ND_BLOCK { stmts };
        proof {
            lemma_tree_children(node);
        }
        return Ok(node);
    }
    if consume_tk(tokens, TokenKind::TK_FOR).is_some() {
        return for_stmt(tokens, lvars);
    }
    expr_until(tokens, lvars, Symbol::Semicolon)
}

/// An `if` whose keyword has been read: the condition in parentheses, the
/// consequent, and after `else` the alternative.
#[verifier::spinoff_prover]
pub fn if_stmt(tokens: &mut VecDeque<Token>, lvars: &mut VecDeque<LVar>) -> (r: Result<
    Node,
    ParseError,
>)
    requires
        lvars_wf(old(lvars)@),
    ensures
        parsed(
            if_spec(token_views(old(tokens)@), var_names(old(lvars)@)),
            r,
            final(tokens)@,
            final(lvars)@,
        ),
        r is Ok ==> token_views(final(tokens)@).len() < token_views(old(tokens)@).len(),
    decreases token_views(old(tokens)@).len(), 1nat,
{
    reveal(if_spec);
    reveal(stmt_spec);
    let cond: Node = condition(tokens, lvars)?;
    let cons: Node = stmt(tokens, lvars)?;
    let alt: Node = if consume(tokens, "else") {
        stmt(tokens, lvars)?
    } else {
        let nothing = Node::ND_NOTHING;
        assert(nothing@ == Ast::Nothing);
        nothing
    };
    Ok(Node::ND_IF { cond: Box::new(cond), cons: Box::new(cons), alt: Box::new(alt) })
}

/// A `while` loop whose keyword has been read: the condition in
/// parentheses and the body.
#[verifier::spinoff_prover]
pub fn while_stmt(tokens: &mut VecDeque<Token>, lvars: &mut VecDeque<LVar>) -> (r: Result<
    Node,
    ParseError,
>)
    requires
        lvars_wf(old(lvars)@),
    ensures
        parsed(
            while_spec(token_views(old(tokens)@), var_names(old(lvars)@)),
            r,
            final(tokens)@,
            final(lvars)@,
        ),
        r is Ok ==> token_views(final(tokens)@).len() < token_views(old(tokens)@).len(),
    decreases token_views(old(tokens)@).len(), 1nat,
{
    reveal(while_spec);
    reveal(stmt_spec);
    let cond: Node = condition(tokens, lvars)?;
    let body: Node = stmt(tokens, lvars)?;
    Ok(Node::ND_WHILE { cond: Box::new(cond), body: Box::new(body) })
}

/// A `for` loop whose keyword has been read: the three clauses in
/// parentheses, each of which may be left out, and the body.
#[verifier::spinoff_prover]
pub fn for_stmt(tokens: &mut VecDeque<Token>, lvars: &mut VecDeque<LVar>) -> (r: Result<
    Node,
    ParseError,
>)
    requires
        lvars_wf(old(lvars)@),
    ensures
        parsed(
            for_spec(token_views(old(tokens)@), var_names(old(lvars)@)),
            r,
            final(tokens)@,
            final(lvars)@,
        ),
        r is Ok ==> token_views(final(tokens)@).len() < token_views(old(tokens)@).len(),
    decreases token_views(old(tokens)@).len(), 1nat,
{
    reveal(for_spec);
    reveal(stmt_spec);
    expect(tokens, Symbol::LParen)?;
    let init: Node = clause(tokens, lvars, Symbol::Semicolon)?;
    let cond: Node = clause(tokens, lvars, Symbol::Semicolon)?;
    let inc: Node = clause(tokens, lvars, Symbol::RParen)?;
    let body: Node = stmt(tokens, lvars)?;
    Ok(
        Node::ND_FOR {
            init: Box::new(init),
            cond: Box::new(cond),
            inc: Box::new(inc),
            body: Box::new(body),
        },
    )
}

/// The statements of a block or of a function body whose `{` has been read,
/// through its `}`.
#[verifier::spinoff_prover]
pub fn statements(tokens: &mut VecDeque<Token>, lvars: &mut VecDeque<LVar>) -> (r: Result<
    Vec<Node>,
    ParseError,
>)
    requires
        lvars_wf(old(lvars)@),
    ensures
        parsed_list(
            block_items(Seq::empty(), token_views(old(tokens)@), var_names(old(lvars)@)),
            r,
            final(tokens)@,
            final(lvars)@,
        ),
        r is Ok ==> token_views(final(tokens)@).len() < token_views(old(tokens)@).len(),
    decreases token_views(old(tokens)@).len(), 1nat,
{
    let ghost goal = block_items(Seq::empty(), token_views(tokens@), var_names(lvars@));
    let ghost len0 = token_views(tokens@).len();
    let mut stmts: Vec<Node> = Vec::new();
    assert(trees(stmts@) =~= Seq::<Ast>::empty());
    loop
        invariant
            lvars_wf(lvars@),
            token_views(tokens@).len() <= len0,
            len0 == token_views(old(tokens)@).len(),
            goal == block_items(
                Seq::empty(),
                token_views(old(tokens)@),
                var_names(old(lvars)@),
            ),
            goal == block_items(trees(stmts@), token_views(tokens@), var_names(lvars@)),
        decreases token_views(tokens@).len(),
    {
        reveal(block_items);
        reveal(stmt_spec);
        if consume(tokens, "}") {
            return Ok(stmts);
        }
        if at_end(tokens) {
            return Err(ParseError::MissingNumber { at_end: true });
        }
        let ghost before = trees(stmts@);
        let item: Node = stmt(tokens, lvars)?;
        let ghost item_tree = item@;
        stmts.push(item);
        assert(trees(stmts@) =~= before.push(item_tree));
    }
}

/// The parameters of a function, between its parentheses: names separated
/// by commas, or none. Each becomes a variable of the function.
pub fn params(tokens: &mut VecDeque<Token>, lvars: &mut VecDeque<LVar>) -> (r: Result<
    VecDeque<Node>,
    ParseError,
>)
    requires
        lvars_wf(old(lvars)@),
    ensures
        match params_spec(token_views(old(tokens)@), var_names(old(lvars)@)) {
            Ok(p) => {
                &&& r is Ok
                &&& trees(r->Ok_0@) == p.nodes
                &&& token_views(final(tokens)@) == p.rest
                &&& var_names(final(lvars)@) == p.vars
                &&& lvars_wf(final(lvars)@)
            },
            Err(e) => r is Err && r->Err_0 == e,
        },
        token_views(final(tokens)@).len() <= token_views(old(tokens)@).len(),
{
    let ghost goal = params_spec(token_views(tokens@), var_names(lvars@));
    let mut prms: VecDeque<Node> = VecDeque::new();
    assert(trees(prms@) =~= Seq::<Ast>::empty());
    let token = match consume_tk(tokens, TokenKind::TK_IDENT) {
        Some(token) => token,
        None => {
            return Ok(prms);
        },
    };
    let first: Node = local_var(token, lvars)?;
    let ghost first_tree = first@;
    prms.push_back(first);
    assert(trees(prms@) =~= seq![first_tree]);
    loop
        invariant
            lvars_wf(lvars@),
            token_views(tokens@).len() <= token_views(old(tokens)@).len(),
            goal == params_spec(token_views(old(tokens)@), var_names(old(lvars)@)),
            goal == params_tail(trees(prms@), token_views(tokens@), var_names(lvars@)),
        decreases token_views(tokens@).len(),
    {
        reveal(params_tail);
        if !consume(tokens, ",") {
            return Ok(prms);
        }
        let token = match consume_tk(tokens, TokenKind::TK_IDENT) {
            Some(token) => token,
            None => {
                return Err(ParseError::MissingParameter);
            },
        };
        let ghost before = trees(prms@);
        let param: Node = local_var(token, lvars)?;
        let ghost param_tree = param@;
        prms.push_back(param);
        assert(trees(prms@) =~= before.push(param_tree));
    }
}

/// A function definition: its name, its parameters, and its body. The
/// frame gets eight bytes for each variable that the function mentions.
pub fn function(tokens: &mut VecDeque<Token>) -> (r: Result<Node, ParseError>)
    ensures
        match function_spec(token_views(old(tokens)@)) {
            Ok(p) => r is Ok && r->Ok_0@ == p.node && token_views(final(tokens)@) == p.rest,
            Err(e) => r is Err && r->Err_0 == e,
        },
        r is Ok ==> token_views(final(tokens)@).len() < token_views(old(tokens)@).len(),
{
    let mut lvars: VecDeque<LVar> = VecDeque::new();
    proof {
        reveal(lvars_wf);
        reveal(var_names);
        assert(var_names(lvars@) =~= Seq::<Seq<char>>::empty());
    }
    let token = match consume_tk(tokens, TokenKind::TK_IDENT) {
        Some(token) => token,
        None => {
            return Err(ParseError::MissingFunctionName);
        },
    };
    expect(tokens, Symbol::LParen)?;
    let parameters: VecDeque<Node> = params(tokens, &mut lvars)?;
    expect(tokens, Symbol::RParen)?;
    expect(tokens, Symbol::LBrace)?;
    let body: Vec<Node> = statements(tokens, &mut lvars)?;
    proof {
        reveal(lvars_wf);
        reveal(var_names);
    }
    let stack_size: u32 = (8 * lvars.len()) as u32;
    let node = Node::ND_FUNCTION { name: token.str, body, parameters, stack_size };
    proof {
        lemma_tree_children(node);
    }
    Ok(node)
}

/// Parses a whole program: function definitions, one after another, to the
/// end of the tokens. Gives the functions in the order of the source, or
/// the first syntax error.
pub fn program(tokens: &mut VecDeque<Token>) -> (r: Result<Vec<Node>, ParseError>)
    ensures
        match program_spec(token_views(old(tokens)@)) {
            Ok(functions) => r is Ok && trees(r->Ok_0@) == functions && final(tokens)@.len() == 0,
            Err(e) => r is Err && r->Err_0 == e,
        },
{
    let ghost goal = program_spec(token_views(tokens@));
    let mut nodes: Vec<Node> = Vec::new();
    assert(trees(nodes@) =~= Seq::<Ast>::empty());
    loop
        invariant
            goal == program_spec(token_views(old(tokens)@)),
            goal == functions_spec(trees(nodes@), token_views(tokens@)),
        decreases token_views(tokens@).len(),
    {
        reveal(functions_spec);
        if at_end(tokens) {
            proof {
                reveal(token_views);
            }
            return Ok(nodes);
        }
        let ghost before = trees(nodes@);
        let node: Node = function(tokens)?;
        let ghost node_tree = node@;
        nodes.push(node);
        assert(trees(nodes@) =~= before.push(node_tree));
    }
}

} // verus!
