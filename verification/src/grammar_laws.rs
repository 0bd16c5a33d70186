//! What holds of every tree that the grammar gives: parsing never puts
//! tokens back, the names of a function's variables are distinct, and the
//! slots that its tree uses are exactly the slots of those names, eight
//! bytes apart from offset zero, within a frame of eight bytes for each.

use crate::grammar::{
    add_spec, add_tail, args_tail, assign_spec, binary, block_items, clause_spec, closed_expr,
    condition_spec, equality_spec, equality_tail, expect_spec, expr_spec, for_clauses, for_spec,
    func_args_spec, function_spec, functions_spec, if_spec, local_var_spec, mul_spec, mul_tail,
    params_spec, params_tail, peek_is, peek_kind, position, primary_spec, program_spec,
    relational_spec, relational_tail, stmt_spec, symbol_text, unary_spec, while_spec, within, Ast,
    BinOp, Parsed, ParsedList, Symbol,
};
use crate::tokenize::{TokenKind, TokenView};
use vstd::prelude::*;

verus! {

/// `position` is the first index that holds `name`.
pub proof fn lemma_position(vars: Seq<Seq<char>>, name: Seq<char>)
    ensures
        position(vars, name) <= vars.len(),
        position(vars, name) < vars.len() ==> vars[position(vars, name) as int] == name,
        forall|i: int| 0 <= i < position(vars, name) ==> vars[i] != name,
    decreases vars.len(),
{
    if vars.len() > 0 && vars[0] != name {
        let tail = vars.drop_first();
        lemma_position(tail, name);
        assert forall|i: int| 0 <= i < position(vars, name) implies vars[i] != name by {
            if i > 0 {
                assert(vars[i] == tail[i - 1]);
            }
        }
    }
}

/// Two names of a table that have the same position are the same name: no
/// two distinct identifiers share a slot.
pub proof fn lemma_position_injective(vars: Seq<Seq<char>>, a: Seq<char>, b: Seq<char>)
    requires
        position(vars, a) < vars.len(),
        position(vars, a) == position(vars, b),
    ensures
        a == b,
{
    lemma_position(vars, a);
    lemma_position(vars, b);
}

/// A name keeps its position when another name joins the table: a variable
/// has the same slot wherever it is mentioned.
pub proof fn lemma_position_stable(vars: Seq<Seq<char>>, a: Seq<char>, b: Seq<char>)
    requires
        position(vars, a) < vars.len(),
    ensures
        position(vars.push(b), a) == position(vars, a),
    decreases vars.len(),
{
    if vars.len() > 0 {
        assert(vars.push(b)[0] == vars[0]);
        if vars[0] != a {
            assert(vars.push(b).drop_first() =~= vars.drop_first().push(b));
            lemma_position_stable(vars.drop_first(), a, b);
        }
    }
}

/// Whether the tree `a` mentions the variable in the slot at offset `o`.
pub open spec fn uses(a: Ast, o: nat) -> bool
    decreases a,
{
    match a {
        Ast::Nothing => false,
        Ast::Num(_) => false,
        Ast::Var(offset) => offset == o,
        Ast::Binary(_, lhs, rhs) => uses(*lhs, o) || uses(*rhs, o),
        Ast::Assign(place, value) => uses(*place, o) || uses(*value, o),
        Ast::Call(_, args) => uses_any(args, o),
        Ast::Return(value) => uses(*value, o),
        Ast::If(cond, cons, alt) => uses(*cond, o) || uses(*cons, o) || uses(*alt, o),
        Ast::While(cond, body) => uses(*cond, o) || uses(*body, o),
        Ast::For(init, cond, inc, body) => uses(*init, o) || uses(*cond, o) || uses(*inc, o)
            || uses(*body, o),
        Ast::Block(stmts) => uses_any(stmts, o),
        Ast::Function { body, params, .. } => uses_any(params, o) || uses_any(body, o),
    }
}

/// Whether one of the trees `list` mentions the variable in the slot at
/// offset `o`.
pub open spec fn uses_any(list: Seq<Ast>, o: nat) -> bool
    decreases list,
{
    exists|i: int| 0 <= i < list.len() && uses(list[i], o)
}

/// Whether `a` has the shape of an expression: a number, a variable, an
/// operation on expressions, an assignment between expressions, or a call
/// with expressions as arguments.
pub open spec fn is_expr(a: Ast) -> bool
    decreases a,
{
    match a {
        Ast::Num(_) => true,
        Ast::Var(_) => true,
        Ast::Binary(_, lhs, rhs) => is_expr(*lhs) && is_expr(*rhs),
        Ast::Assign(place, value) => is_expr(*place) && is_expr(*value),
        Ast::Call(_, args) => all_expr(args),
        _ => false,
    }
}

/// Whether every tree of `list` has the shape of an expression.
pub open spec fn all_expr(list: Seq<Ast>) -> bool
    decreases list,
{
    forall|i: int| 0 <= i < list.len() ==> is_expr(list[i])
}

/// Whether `a` is a clause of `for`: an expression, or nothing.
pub open spec fn is_clause(a: Ast) -> bool {
    a is Nothing || is_expr(a)
}

/// Whether `a` has the shape of a statement: an expression, a `return` of
/// one, an `if` or a loop over statements with expressions as conditions, or
/// a block of statements.
pub open spec fn is_stmt(a: Ast) -> bool
    decreases a,
{
    match a {
        Ast::Nothing => false,
        Ast::Return(value) => is_expr(*value),
        Ast::If(cond, cons, alt) => is_expr(*cond) && is_stmt(*cons) && (*alt is Nothing || is_stmt(
            *alt,
        )),
        Ast::While(cond, body) => is_expr(*cond) && is_stmt(*body),
        Ast::For(init, cond, inc, body) => is_clause(*init) && is_clause(*cond) && is_clause(*inc)
            && is_stmt(*body),
        Ast::Block(stmts) => all_stmt(stmts),
        Ast::Function { .. } => false,
        _ => is_expr(a),
    }
}

/// Whether every tree of `list` has the shape of a statement.
pub open spec fn all_stmt(list: Seq<Ast>) -> bool
    decreases list,
{
    forall|i: int| 0 <= i < list.len() ==> is_stmt(list[i])
}

/// Whether every tree of `list` is a variable.
pub open spec fn all_var(list: Seq<Ast>) -> bool {
    forall|i: int| 0 <= i < list.len() ==> (#[trigger] list[i]) is Var
}

/// Whether `a` has the shape of a function definition: variables as
/// parameters and statements as its body.
pub open spec fn is_function(a: Ast) -> bool {
    a matches Ast::Function { body, params, .. } && all_var(params) && all_stmt(body)
}

proof fn lemma_all_expr_push(done: Seq<Ast>, node: Ast)
    requires
        all_expr(done),
        is_expr(node),
    ensures
        all_expr(done.push(node)),
{
    let more = done.push(node);
    assert forall|i: int| 0 <= i < more.len() implies is_expr(more[i]) by {
        if i < done.len() {
            assert(more[i] == done[i]);
        }
    }
}

proof fn lemma_all_stmt_push(done: Seq<Ast>, node: Ast)
    requires
        all_stmt(done),
        is_stmt(node),
    ensures
        all_stmt(done.push(node)),
{
    let more = done.push(node);
    assert forall|i: int| 0 <= i < more.len() implies is_stmt(more[i]) by {
        if i < done.len() {
            assert(more[i] == done[i]);
        }
    }
}

proof fn lemma_all_var_push(done: Seq<Ast>, node: Ast)
    requires
        all_var(done),
        node is Var,
    ensures
        all_var(done.push(node)),
{
    let more = done.push(node);
    assert forall|i: int| 0 <= i < more.len() implies (#[trigger] more[i]) is Var by {
        if i < done.len() {
            assert(more[i] == done[i]);
        }
    }
}

/// Whether `o` is the offset of one of the first `k` slots.
pub open spec fn slot_below(o: nat, k: nat) -> bool {
    o % 8 == 0 && o < 8 * k
}

/// Whether `o` is the offset of one of the slots from index `from` up to
/// index `to`.
pub open spec fn slot_between(o: nat, from: nat, to: nat) -> bool {
    o % 8 == 0 && 8 * from <= o < 8 * to
}

/// What holds of the names: none is lost, and they stay distinct.
pub open spec fn names_kept(vars: Seq<Seq<char>>, after: Seq<Seq<char>>) -> bool {
    &&& vars.len() <= after.len()
    &&& vars.no_duplicates() ==> after.no_duplicates()
}

/// What holds, for the slot at offset `o`, of a tree `p` read from `toks`
/// with the names `vars` known before: no token was put back; the tree
/// mentions slots of known names only, and it mentions the slot of every
/// name that it added.
pub open spec fn sound(toks: Seq<TokenView>, vars: Seq<Seq<char>>, p: Parsed, o: nat) -> bool {
    &&& p.rest.len() <= toks.len()
    &&& names_kept(vars, p.vars)
    &&& uses(p.node, o) ==> slot_below(o, p.vars.len())
    &&& slot_between(o, vars.len(), p.vars.len()) ==> uses(p.node, o)
}

/// Like [`sound`], for a tree that grew out of `lhs`: what `lhs` mentions,
/// the tree mentions too.
pub open spec fn sound_from(
    lhs: Ast,
    toks: Seq<TokenView>,
    vars: Seq<Seq<char>>,
    p: Parsed,
    o: nat,
) -> bool {
    &&& p.rest.len() <= toks.len()
    &&& names_kept(vars, p.vars)
    &&& uses(p.node, o) ==> uses(lhs, o) || slot_below(o, p.vars.len())
    &&& uses(lhs, o) || slot_between(o, vars.len(), p.vars.len()) ==> uses(p.node, o)
}

/// Like [`sound_from`], for a list of trees that grew out of `done`.
pub open spec fn sound_list(
    done: Seq<Ast>,
    toks: Seq<TokenView>,
    vars: Seq<Seq<char>>,
    p: ParsedList,
    o: nat,
) -> bool {
    &&& p.rest.len() <= toks.len()
    &&& names_kept(vars, p.vars)
    &&& uses_any(p.nodes, o) ==> uses_any(done, o) || slot_below(o, p.vars.len())
    &&& uses_any(done, o) || slot_between(o, vars.len(), p.vars.len()) ==> uses_any(p.nodes, o)
}

/// A list with one more tree mentions what the list mentioned and what the
/// tree mentions.
pub proof fn lemma_uses_push(done: Seq<Ast>, node: Ast, o: nat)
    ensures
        uses_any(done.push(node), o) <==> uses_any(done, o) || uses(node, o),
{
    let more = done.push(node);
    if uses_any(more, o) {
        let i = choose|i: int| 0 <= i < more.len() && uses(more[i], o);
        if i < done.len() {
            assert(more[i] == done[i]);
        }
    }
    if uses_any(done, o) {
        let i = choose|i: int| 0 <= i < done.len() && uses(done[i], o);
        assert(more[i] == done[i]);
    }
    if uses(node, o) {
        assert(more[done.len() as int] == node);
    }
}

/// An empty list mentions nothing.
pub proof fn lemma_uses_none(o: nat)
    ensures
        !uses_any(Seq::<Ast>::empty(), o),
{
}

/// The slot that a name gets is the slot of a known name, or the first free
/// one, and the names stay distinct.
pub proof fn lemma_local_var(name: Seq<char>, vars: Seq<Seq<char>>, o: nat)
    requires
        local_var_spec(name, vars) is Ok,
    ensures
        ({
            let slot = local_var_spec(name, vars)->Ok_0;
            &&& names_kept(vars, slot.1)
            &&& slot.0 == 8 * position(vars, name)
            &&& position(slot.1, name) == position(vars, name)
            &&& uses(Ast::Var(slot.0), o) ==> slot_below(o, slot.1.len())
            &&& slot_between(o, vars.len(), slot.1.len()) ==> uses(Ast::Var(slot.0), o)
        }),
{
    lemma_position(vars, name);
    let k = position(vars, name);
    if k >= vars.len() {
        let more = vars.push(name);
        lemma_position(more, name);
        assert(more[vars.len() as int] == name);
        if position(more, name) < vars.len() {
            assert(more[position(more, name) as int] == vars[position(more, name) as int]);
        }
        if vars.no_duplicates() {
            assert forall|i: int, j: int| 0 <= i < more.len() && 0 <= j < more.len() && i != j
                implies more[i] != more[j] by {
                if i < vars.len() && j < vars.len() {
                    assert(more[i] == vars[i] && more[j] == vars[j]);
                } else if i < vars.len() {
                    assert(more[i] == vars[i]);
                } else {
                    assert(more[j] == vars[j]);
                }
            }
        }
    }
}

/// What [`primary_spec`] gives is [`sound`].
#[verifier::spinoff_prover]
pub proof fn lemma_primary(toks: Seq<TokenView>, vars: Seq<Seq<char>>, o: nat)
    requires
        primary_spec(toks, vars) is Ok,
    ensures
        sound(toks, vars, primary_spec(toks, vars)->Ok_0, o),
        primary_spec(toks, vars)->Ok_0.rest.len() < toks.len(),
        is_expr(primary_spec(toks, vars)->Ok_0.node),
    decreases toks.len(), 0nat,
{
    reveal(primary_spec);
    reveal(expr_spec);
    reveal(func_args_spec);
    if peek_is(toks, "("@) {
        lemma_expr(toks.drop_first(), vars, o);
    } else if peek_kind(toks, TokenKind::TK_IDENT) {
        let name = toks[0].str;
        let after = toks.drop_first();
        if peek_is(after, "("@) {
            lemma_func_args(after.drop_first(), vars, o);
            lemma_uses_none(o);
        } else {
            lemma_local_var(name, vars, o);
        }
    }
}

/// What [`func_args_spec`] gives is [`sound_list`].
#[verifier::spinoff_prover]
pub proof fn lemma_func_args(toks: Seq<TokenView>, vars: Seq<Seq<char>>, o: nat)
    requires
        func_args_spec(toks, vars) is Ok,
    ensures
        sound_list(Seq::empty(), toks, vars, func_args_spec(toks, vars)->Ok_0, o),
        func_args_spec(toks, vars)->Ok_0.rest.len() < toks.len(),
        all_expr(func_args_spec(toks, vars)->Ok_0.nodes),
    decreases toks.len(), 11nat,
{
    reveal(func_args_spec);
    reveal(args_tail);
    reveal(assign_spec);
    lemma_uses_none(o);
    if !peek_is(toks, ")"@) {
        let a = assign_spec(toks, vars)->Ok_0;
        lemma_assign(toks, vars, o);
        lemma_all_expr_push(Seq::empty(), a.node);
        assert(Seq::<Ast>::empty().push(a.node) =~= seq![a.node]);
        lemma_args_tail(seq![a.node], a.rest, a.vars, o);
        lemma_uses_push(Seq::empty(), a.node, o);
        assert(Seq::<Ast>::empty().push(a.node) =~= seq![a.node]);
    }
}

/// What [`args_tail`] gives is [`sound_list`], and it ends after a `)`.
#[verifier::spinoff_prover]
pub proof fn lemma_args_tail(done: Seq<Ast>, toks: Seq<TokenView>, vars: Seq<Seq<char>>, o: nat)
    requires
        args_tail(done, toks, vars) is Ok,
    ensures
        sound_list(done, toks, vars, args_tail(done, toks, vars)->Ok_0, o),
        args_tail(done, toks, vars)->Ok_0.rest.len() < toks.len(),
        all_expr(done) ==> all_expr(args_tail(done, toks, vars)->Ok_0.nodes),
    decreases toks.len(), 0nat,
{
    reveal(args_tail);
    reveal(assign_spec);
    if peek_is(toks, ","@) {
        let a = assign_spec(toks.drop_first(), vars)->Ok_0;
        lemma_assign(toks.drop_first(), vars, o);
        if all_expr(done) {
            lemma_all_expr_push(done, a.node);
        }
        lemma_args_tail(done.push(a.node), a.rest, a.vars, o);
        lemma_uses_push(done, a.node, o);
    }
}

/// What [`unary_spec`] gives is [`sound`].
#[verifier::spinoff_prover]
pub proof fn lemma_unary(toks: Seq<TokenView>, vars: Seq<Seq<char>>, o: nat)
    requires
        unary_spec(toks, vars) is Ok,
    ensures
        sound(toks, vars, unary_spec(toks, vars)->Ok_0, o),
        unary_spec(toks, vars)->Ok_0.rest.len() < toks.len(),
        is_expr(unary_spec(toks, vars)->Ok_0.node),
    decreases toks.len(), 1nat,
{
    reveal(unary_spec);
    reveal(primary_spec);
    if peek_is(toks, "+"@) {
        lemma_primary(toks.drop_first(), vars, o);
    } else if peek_is(toks, "-"@) {
        lemma_primary(toks.drop_first(), vars, o);
        assert(!uses(Ast::Num(0), o));
        assert(is_expr(Ast::Num(0)));
    } else {
        lemma_primary(toks, vars, o);
    }
}

/// What [`mul_spec`] gives is [`sound`].
#[verifier::spinoff_prover]
pub proof fn lemma_mul(toks: Seq<TokenView>, vars: Seq<Seq<char>>, o: nat)
    requires
        mul_spec(toks, vars) is Ok,
    ensures
        sound(toks, vars, mul_spec(toks, vars)->Ok_0, o),
        mul_spec(toks, vars)->Ok_0.rest.len() < toks.len(),
        is_expr(mul_spec(toks, vars)->Ok_0.node),
    decreases toks.len(), 3nat,
{
    reveal(mul_spec);
    reveal(mul_tail);
    reveal(unary_spec);
    let l = unary_spec(toks, vars)->Ok_0;
    lemma_unary(toks, vars, o);
    lemma_mul_tail(l.node, l.rest, l.vars, o);
}

/// What [`mul_tail`] gives is [`sound_from`] its left operand.
#[verifier::spinoff_prover]
pub proof fn lemma_mul_tail(lhs: Ast, toks: Seq<TokenView>, vars: Seq<Seq<char>>, o: nat)
    requires
        mul_tail(lhs, toks, vars) is Ok,
    ensures
        sound_from(lhs, toks, vars, mul_tail(lhs, toks, vars)->Ok_0, o),
        is_expr(lhs) ==> is_expr(mul_tail(lhs, toks, vars)->Ok_0.node),
    decreases toks.len(), 2nat,
{
    reveal(mul_tail);
    reveal(unary_spec);
    if peek_is(toks, "*"@) {
        let r = unary_spec(toks.drop_first(), vars)->Ok_0;
        lemma_unary(toks.drop_first(), vars, o);
        lemma_mul_tail(binary(BinOp::Mul, lhs, r.node), r.rest, r.vars, o);
    } else if peek_is(toks, "/"@) {
        let r = unary_spec(toks.drop_first(), vars)->Ok_0;
        lemma_unary(toks.drop_first(), vars, o);
        lemma_mul_tail(binary(BinOp::Div, lhs, r.node), r.rest, r.vars, o);
    }
}

/// What [`add_spec`] gives is [`sound`].
#[verifier::spinoff_prover]
pub proof fn lemma_add(toks: Seq<TokenView>, vars: Seq<Seq<char>>, o: nat)
    requires
        add_spec(toks, vars) is Ok,
    ensures
        sound(toks, vars, add_spec(toks, vars)->Ok_0, o),
        add_spec(toks, vars)->Ok_0.rest.len() < toks.len(),
        is_expr(add_spec(toks, vars)->Ok_0.node),
    decreases toks.len(), 5nat,
{
    reveal(add_spec);
    reveal(add_tail);
    reveal(mul_spec);
    let l = mul_spec(toks, vars)->Ok_0;
    lemma_mul(toks, vars, o);
    lemma_add_tail(l.node, l.rest, l.vars, o);
}

/// What [`add_tail`] gives is [`sound_from`] its left operand.
#[verifier::spinoff_prover]
pub proof fn lemma_add_tail(lhs: Ast, toks: Seq<TokenView>, vars: Seq<Seq<char>>, o: nat)
    requires
        add_tail(lhs, toks, vars) is Ok,
    ensures
        sound_from(lhs, toks, vars, add_tail(lhs, toks, vars)->Ok_0, o),
        is_expr(lhs) ==> is_expr(add_tail(lhs, toks, vars)->Ok_0.node),
    decreases toks.len(), 4nat,
{
    reveal(add_tail);
    reveal(mul_spec);
    if peek_is(toks, "+"@) {
        let r = mul_spec(toks.drop_first(), vars)->Ok_0;
        lemma_mul(toks.drop_first(), vars, o);
        lemma_add_tail(binary(BinOp::Add, lhs, r.node), r.rest, r.vars, o);
    } else if peek_is(toks, "-"@) {
        let r = mul_spec(toks.drop_first(), vars)->Ok_0;
        lemma_mul(toks.drop_first(), vars, o);
        lemma_add_tail(binary(BinOp::Sub, lhs, r.node), r.rest, r.vars, o);
    }
}

/// What [`relational_spec`] gives is [`sound`].
#[verifier::spinoff_prover]
pub proof fn lemma_relational(toks: Seq<TokenView>, vars: Seq<Seq<char>>, o: nat)
    requires
        relational_spec(toks, vars) is Ok,
    ensures
        sound(toks, vars, relational_spec(toks, vars)->Ok_0, o),
        relational_spec(toks, vars)->Ok_0.rest.len() < toks.len(),
        is_expr(relational_spec(toks, vars)->Ok_0.node),
    decreases toks.len(), 7nat,
{
    reveal(relational_spec);
    reveal(relational_tail);
    reveal(add_spec);
    let l = add_spec(toks, vars)->Ok_0;
    lemma_add(toks, vars, o);
    lemma_relational_tail(l.node, l.rest, l.vars, o);
}

/// What [`relational_tail`] gives is [`sound_from`] its left operand.
#[verifier::spinoff_prover]
pub proof fn lemma_relational_tail(lhs: Ast, toks: Seq<TokenView>, vars: Seq<Seq<char>>, o: nat)
    requires
        relational_tail(lhs, toks, vars) is Ok,
    ensures
        sound_from(lhs, toks, vars, relational_tail(lhs, toks, vars)->Ok_0, o),
        is_expr(lhs) ==> is_expr(relational_tail(lhs, toks, vars)->Ok_0.node),
    decreases toks.len(), 6nat,
{
    reveal(relational_tail);
    reveal(add_spec);
    if peek_is(toks, "<"@) {
        let r = add_spec(toks.drop_first(), vars)->Ok_0;
        lemma_add(toks.drop_first(), vars, o);
        lemma_relational_tail(binary(BinOp::Lt, lhs, r.node), r.rest, r.vars, o);
    } else if peek_is(toks, "<="@) {
        let r = add_spec(toks.drop_first(), vars)->Ok_0;
        lemma_add(toks.drop_first(), vars, o);
        lemma_relational_tail(binary(BinOp::Le, lhs, r.node), r.rest, r.vars, o);
    } else if peek_is(toks, ">"@) {
        let r = add_spec(toks.drop_first(), vars)->Ok_0;
        lemma_add(toks.drop_first(), vars, o);
        lemma_relational_tail(binary(BinOp::Lt, r.node, lhs), r.rest, r.vars, o);
    } else if peek_is(toks, ">="@) {
        let r = add_spec(toks.drop_first(), vars)->Ok_0;
        lemma_add(toks.drop_first(), vars, o);
        lemma_relational_tail(binary(BinOp::Le, r.node, lhs), r.rest, r.vars, o);
    }
}

/// What [`equality_spec`] gives is [`sound`].
#[verifier::spinoff_prover]
pub proof fn lemma_equality(toks: Seq<TokenView>, vars: Seq<Seq<char>>, o: nat)
    requires
        equality_spec(toks, vars) is Ok,
    ensures
        sound(toks, vars, equality_spec(toks, vars)->Ok_0, o),
        equality_spec(toks, vars)->Ok_0.rest.len() < toks.len(),
        is_expr(equality_spec(toks, vars)->Ok_0.node),
    decreases toks.len(), 9nat,
{
    reveal(equality_spec);
    reveal(equality_tail);
    reveal(relational_spec);
    let l = relational_spec(toks, vars)->Ok_0;
    lemma_relational(toks, vars, o);
    lemma_equality_tail(l.node, l.rest, l.vars, o);
}

/// What [`equality_tail`] gives is [`sound_from`] its left operand.
#[verifier::spinoff_prover]
pub proof fn lemma_equality_tail(lhs: Ast, toks: Seq<TokenView>, vars: Seq<Seq<char>>, o: nat)
    requires
        equality_tail(lhs, toks, vars) is Ok,
    ensures
        sound_from(lhs, toks, vars, equality_tail(lhs, toks, vars)->Ok_0, o),
        is_expr(lhs) ==> is_expr(equality_tail(lhs, toks, vars)->Ok_0.node),
    decreases toks.len(), 8nat,
{
    reveal(equality_tail);
    reveal(relational_spec);
    if peek_is(toks, "=="@) {
        let r = relational_spec(toks.drop_first(), vars)->Ok_0;
        lemma_relational(toks.drop_first(), vars, o);
        lemma_equality_tail(binary(BinOp::Eq, lhs, r.node), r.rest, r.vars, o);
    } else if peek_is(toks, "!="@) {
        let r = relational_spec(toks.drop_first(), vars)->Ok_0;
        lemma_relational(toks.drop_first(), vars, o);
        lemma_equality_tail(binary(BinOp::Ne, lhs, r.node), r.rest, r.vars, o);
    }
}

/// What [`assign_spec`] gives is [`sound`].
#[verifier::spinoff_prover]
pub proof fn lemma_assign(toks: Seq<TokenView>, vars: Seq<Seq<char>>, o: nat)
    requires
        assign_spec(toks, vars) is Ok,
    ensures
        sound(toks, vars, assign_spec(toks, vars)->Ok_0, o),
        assign_spec(toks, vars)->Ok_0.rest.len() < toks.len(),
        is_expr(assign_spec(toks, vars)->Ok_0.node),
    decreases toks.len(), 10nat,
{
    reveal(assign_spec);
    reveal(equality_spec);
    let l = equality_spec(toks, vars)->Ok_0;
    lemma_equality(toks, vars, o);
    if peek_is(l.rest, "="@) {
        lemma_assign(l.rest.drop_first(), l.vars, o);
    }
}

/// What [`expr_spec`] gives is [`sound`].
#[verifier::spinoff_prover]
pub proof fn lemma_expr(toks: Seq<TokenView>, vars: Seq<Seq<char>>, o: nat)
    requires
        expr_spec(toks, vars) is Ok,
    ensures
        sound(toks, vars, expr_spec(toks, vars)->Ok_0, o),
        expr_spec(toks, vars)->Ok_0.rest.len() < toks.len(),
        is_expr(expr_spec(toks, vars)->Ok_0.node),
    decreases toks.len(), 11nat,
{
    reveal(expr_spec);
    reveal(assign_spec);
    lemma_assign(toks, vars, o);
}

/// What [`closed_expr`] gives is [`sound`].
pub proof fn lemma_closed_expr(toks: Seq<TokenView>, vars: Seq<Seq<char>>, close: Symbol, o: nat)
    requires
        closed_expr(toks, vars, close) is Ok,
    ensures
        sound(toks, vars, closed_expr(toks, vars, close)->Ok_0, o),
        closed_expr(toks, vars, close)->Ok_0.rest.len() < toks.len(),
        is_expr(closed_expr(toks, vars, close)->Ok_0.node),
{
    lemma_expr(toks, vars, o);
}

/// What [`clause_spec`] gives is [`sound`].
pub proof fn lemma_clause(toks: Seq<TokenView>, vars: Seq<Seq<char>>, close: Symbol, o: nat)
    requires
        clause_spec(toks, vars, close) is Ok,
    ensures
        sound(toks, vars, clause_spec(toks, vars, close)->Ok_0, o),
        clause_spec(toks, vars, close)->Ok_0.rest.len() < toks.len(),
        is_clause(clause_spec(toks, vars, close)->Ok_0.node),
{
    if !peek_is(toks, symbol_text(close)) {
        lemma_closed_expr(toks, vars, close, o);
    }
}

/// What [`condition_spec`] gives is [`sound`].
pub proof fn lemma_condition(toks: Seq<TokenView>, vars: Seq<Seq<char>>, o: nat)
    requires
        condition_spec(toks, vars) is Ok,
    ensures
        sound(toks, vars, condition_spec(toks, vars)->Ok_0, o),
        condition_spec(toks, vars)->Ok_0.rest.len() < toks.len(),
        is_expr(condition_spec(toks, vars)->Ok_0.node),
{
    lemma_closed_expr(expect_spec(toks, Symbol::LParen)->Ok_0, vars, Symbol::RParen, o);
}

/// What [`for_clauses`] gives: three clauses that are [`sound`] together.
pub proof fn lemma_for_clauses(toks: Seq<TokenView>, vars: Seq<Seq<char>>, o: nat)
    requires
        for_clauses(toks, vars) is Ok,
    ensures
        ({
            let h = for_clauses(toks, vars)->Ok_0;
            &&& h.nodes.len() == 3
            &&& is_clause(h.nodes[0])
            &&& is_clause(h.nodes[1])
            &&& is_clause(h.nodes[2])
            &&& h.rest.len() < toks.len()
            &&& names_kept(vars, h.vars)
            &&& uses(h.nodes[0], o) || uses(h.nodes[1], o) || uses(h.nodes[2], o) ==> slot_below(
                o,
                h.vars.len(),
            )
            &&& slot_between(o, vars.len(), h.vars.len()) ==> uses(h.nodes[0], o) || uses(
                h.nodes[1],
                o,
            ) || uses(h.nodes[2], o)
        }),
{
    let inner = expect_spec(toks, Symbol::LParen)->Ok_0;
    let init = clause_spec(inner, vars, Symbol::Semicolon)->Ok_0;
    let cond = clause_spec(init.rest, init.vars, Symbol::Semicolon)->Ok_0;
    lemma_clause(inner, vars, Symbol::Semicolon, o);
    lemma_clause(init.rest, init.vars, Symbol::Semicolon, o);
    lemma_clause(cond.rest, cond.vars, Symbol::RParen, o);
}

/// What [`stmt_spec`] gives is [`sound`].
#[verifier::spinoff_prover]
pub proof fn lemma_stmt(toks: Seq<TokenView>, vars: Seq<Seq<char>>, o: nat)
    requires
        stmt_spec(toks, vars) is Ok,
    ensures
        sound(toks, vars, stmt_spec(toks, vars)->Ok_0, o),
        stmt_spec(toks, vars)->Ok_0.rest.len() < toks.len(),
        is_stmt(stmt_spec(toks, vars)->Ok_0.node),
    decreases toks.len(), 0nat,
{
    reveal(stmt_spec);
    reveal(if_spec);
    reveal(while_spec);
    reveal(for_spec);
    reveal(block_items);
    let after = toks.drop_first();
    if peek_kind(toks, TokenKind::TK_RETURN) {
        lemma_closed_expr(after, vars, Symbol::Semicolon, o);
    } else if peek_kind(toks, TokenKind::TK_IF) {
        lemma_if(after, vars, o);
    } else if peek_kind(toks, TokenKind::TK_WHILE) {
        lemma_while(after, vars, o);
    } else if peek_is(toks, "{"@) {
        lemma_block_items(Seq::empty(), after, vars, o);
        lemma_uses_none(o);
    } else if peek_kind(toks, TokenKind::TK_FOR) {
        lemma_for(after, vars, o);
    } else {
        lemma_closed_expr(toks, vars, Symbol::Semicolon, o);
    }
}

/// What [`if_spec`] gives is [`sound`].
#[verifier::spinoff_prover]
pub proof fn lemma_if(toks: Seq<TokenView>, vars: Seq<Seq<char>>, o: nat)
    requires
        if_spec(toks, vars) is Ok,
    ensures
        sound(toks, vars, if_spec(toks, vars)->Ok_0, o),
        if_spec(toks, vars)->Ok_0.rest.len() < toks.len(),
        is_stmt(if_spec(toks, vars)->Ok_0.node),
    decreases toks.len(), 1nat,
{
    reveal(if_spec);
    reveal(stmt_spec);
    assert(!uses(Ast::Nothing, o));
    let c = condition_spec(toks, vars)->Ok_0;
    lemma_condition(toks, vars, o);
    let s = stmt_spec(c.rest, c.vars)->Ok_0;
    lemma_stmt(c.rest, c.vars, o);
    if peek_is(s.rest, "else"@) {
        lemma_stmt(s.rest.drop_first(), s.vars, o);
    }
}

/// What [`while_spec`] gives is [`sound`].
#[verifier::spinoff_prover]
pub proof fn lemma_while(toks: Seq<TokenView>, vars: Seq<Seq<char>>, o: nat)
    requires
        while_spec(toks, vars) is Ok,
    ensures
        sound(toks, vars, while_spec(toks, vars)->Ok_0, o),
        while_spec(toks, vars)->Ok_0.rest.len() < toks.len(),
        is_stmt(while_spec(toks, vars)->Ok_0.node),
    decreases toks.len(), 1nat,
{
    reveal(while_spec);
    reveal(stmt_spec);
    let c = condition_spec(toks, vars)->Ok_0;
    lemma_condition(toks, vars, o);
    lemma_stmt(c.rest, c.vars, o);
}

/// What [`for_spec`] gives is [`sound`].
#[verifier::spinoff_prover]
pub proof fn lemma_for(toks: Seq<TokenView>, vars: Seq<Seq<char>>, o: nat)
    requires
        for_spec(toks, vars) is Ok,
    ensures
        sound(toks, vars, for_spec(toks, vars)->Ok_0, o),
        for_spec(toks, vars)->Ok_0.rest.len() < toks.len(),
        is_stmt(for_spec(toks, vars)->Ok_0.node),
    decreases toks.len(), 1nat,
{
    reveal(for_spec);
    reveal(stmt_spec);
    let h = for_clauses(toks, vars)->Ok_0;
    lemma_for_clauses(toks, vars, o);
    lemma_stmt(h.rest, h.vars, o);
}

/// What [`block_items`] gives is [`sound_list`], and it ends after a `}`.
#[verifier::spinoff_prover]
pub proof fn lemma_block_items(done: Seq<Ast>, toks: Seq<TokenView>, vars: Seq<Seq<char>>, o: nat)
    requires
        block_items(done, toks, vars) is Ok,
    ensures
        sound_list(done, toks, vars, block_items(done, toks, vars)->Ok_0, o),
        block_items(done, toks, vars)->Ok_0.rest.len() < toks.len(),
        all_stmt(done) ==> all_stmt(block_items(done, toks, vars)->Ok_0.nodes),
    decreases toks.len(), 1nat,
{
    reveal(block_items);
    reveal(stmt_spec);
    if !peek_is(toks, "}"@) {
        let s = stmt_spec(toks, vars)->Ok_0;
        lemma_stmt(toks, vars, o);
        if all_stmt(done) {
            lemma_all_stmt_push(done, s.node);
        }
        lemma_block_items(done.push(s.node), s.rest, s.vars, o);
        lemma_uses_push(done, s.node, o);
    }
}

/// What [`params_tail`] gives is [`sound_list`].
pub proof fn lemma_params_tail(done: Seq<Ast>, toks: Seq<TokenView>, vars: Seq<Seq<char>>, o: nat)
    requires
        params_tail(done, toks, vars) is Ok,
    ensures
        sound_list(done, toks, vars, params_tail(done, toks, vars)->Ok_0, o),
        all_var(done) ==> all_var(params_tail(done, toks, vars)->Ok_0.nodes),
    decreases toks.len(),
{
    reveal(params_tail);
    if peek_is(toks, ","@) {
        let after = toks.drop_first();
        let slot = local_var_spec(after[0].str, vars)->Ok_0;
        lemma_local_var(after[0].str, vars, o);
        if all_var(done) {
            lemma_all_var_push(done, Ast::Var(slot.0));
        }
        lemma_params_tail(done.push(Ast::Var(slot.0)), after.drop_first(), slot.1, o);
        lemma_uses_push(done, Ast::Var(slot.0), o);
    }
}

/// What [`params_spec`] gives is [`sound_list`].
pub proof fn lemma_params(toks: Seq<TokenView>, vars: Seq<Seq<char>>, o: nat)
    requires
        params_spec(toks, vars) is Ok,
    ensures
        sound_list(Seq::empty(), toks, vars, params_spec(toks, vars)->Ok_0, o),
        all_var(params_spec(toks, vars)->Ok_0.nodes),
{
    lemma_uses_none(o);
    if peek_kind(toks, TokenKind::TK_IDENT) {
        let slot = local_var_spec(toks[0].str, vars)->Ok_0;
        lemma_local_var(toks[0].str, vars, o);
        lemma_all_var_push(Seq::empty(), Ast::Var(slot.0));
        assert(Seq::<Ast>::empty().push(Ast::Var(slot.0)) =~= seq![Ast::Var(slot.0)]);
        lemma_params_tail(seq![Ast::Var(slot.0)], toks.drop_first(), slot.1, o);
        lemma_uses_push(Seq::empty(), Ast::Var(slot.0), o);
        assert(Seq::<Ast>::empty().push(Ast::Var(slot.0)) =~= seq![Ast::Var(slot.0)]);
    }
}

/// Frame size: a function that mentions `k` distinct names as variables,
/// its parameters among them, has a frame of exactly `8 * k` bytes. Its
/// tree mentions the slot at offset `o` if and only if `o` is one of the
/// offsets `0`, `8`, and so on below `8 * k`: every name has its own slot
/// inside the frame, and the frame has no slot to spare.
pub proof fn lemma_frame(toks: Seq<TokenView>, o: nat)
    requires
        function_spec(toks) is Ok,
    ensures
        ({
            let f = function_spec(toks)->Ok_0;
            &&& is_function(f.node)
            &&& f.rest.len() < toks.len()
            &&& f.vars.no_duplicates()
            &&& f.node->frame == 8 * f.vars.len()
            &&& uses(f.node, o) <==> slot_below(o, f.vars.len())
        }),
{
    let t1 = expect_spec(toks.drop_first(), Symbol::LParen)->Ok_0;
    let ps = params_spec(t1, Seq::empty())->Ok_0;
    let t2 = expect_spec(ps.rest, Symbol::RParen)->Ok_0;
    let t3 = expect_spec(t2, Symbol::LBrace)->Ok_0;
    lemma_params(t1, Seq::empty(), o);
    lemma_block_items(Seq::empty(), t3, ps.vars, o);
    lemma_uses_none(o);
}

proof fn lemma_functions_frames(done: Seq<Ast>, toks: Seq<TokenView>, i: int, o: nat)
    requires
        functions_spec(done, toks) is Ok,
        0 <= i < functions_spec(done, toks)->Ok_0.len(),
        forall|j: int|
            0 <= j < done.len() ==> is_function(#[trigger] done[j]) && (uses(done[j], o)
                <==> o % 8 == 0 && o < done[j]->frame),
    ensures
        is_function(functions_spec(done, toks)->Ok_0[i]),
        uses(functions_spec(done, toks)->Ok_0[i], o) <==> o % 8 == 0 && o < functions_spec(
            done,
            toks,
        )->Ok_0[i]->frame,
    decreases toks.len(),
{
    reveal(functions_spec);
    if toks.len() > 0 {
        let f = function_spec(toks)->Ok_0;
        lemma_frame(toks, o);
        let more = done.push(f.node);
        assert forall|j: int| 0 <= j < more.len() implies is_function(#[trigger] more[j]) && (uses(
            more[j],
            o,
        ) <==> o % 8 == 0 && o < more[j]->frame) by {
            if j < done.len() {
                assert(more[j] == done[j]);
            }
        }
        lemma_functions_frames(more, within(f.rest, toks.drop_first()), i, o);
    }
}

/// Every function of a parsed program has the shape of a function, and
/// uses its frame to the full and nothing beyond it: its tree mentions the
/// slot at offset `o` if and only if `o` is a multiple of eight below the
/// frame size.
pub proof fn lemma_program_frames(toks: Seq<TokenView>, i: int, o: nat)
    requires
        program_spec(toks) is Ok,
        0 <= i < program_spec(toks)->Ok_0.len(),
    ensures
        is_function(program_spec(toks)->Ok_0[i]),
        uses(program_spec(toks)->Ok_0[i], o) <==> o % 8 == 0 && o < program_spec(
            toks,
        )->Ok_0[i]->frame,
{
    lemma_functions_frames(Seq::empty(), toks, i, o);
}

} // verus!
