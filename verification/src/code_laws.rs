//! What holds of all generated code: expressions push one value and
//! statements none, no numbered label is defined twice, and every function
//! gets one routine of its own.

use crate::code::{
    address_code, aligned_call, args_code, branch_if_zero, epilogue, expr_code, function_code,
    functions_code, max_label, operation, pops, program_code, prologue, spills, stmt_code,
    stmts_code, test_code, Code, CodegenError,
};
use crate::emit::{Inst, Jump, Label, Reg, Tag};
use crate::grammar::{program_spec, Ast, BinOp};
use crate::grammar_laws::{
    all_expr, all_stmt, all_var, is_clause, is_expr, is_function, is_stmt, lemma_program_frames,
    uses, uses_any,
};
use crate::tokenize::TokenView;
use vstd::prelude::*;

verus! {

/// What an instruction does to the depth of the stack.
pub open spec fn stack_effect(inst: Inst) -> int {
    match inst {
        Inst::Push(_) => 1,
        Inst::PushNum(_) => 1,
        Inst::Pop(_) => -1,
        _ => 0,
    }
}

/// The pushes less the pops among the first `k` instructions.
pub open spec fn net_pushes_upto(insts: Seq<Inst>, k: nat) -> int
    decreases k,
{
    if k == 0 {
        0
    } else {
        net_pushes_upto(insts, (k - 1) as nat) + stack_effect(insts[k - 1])
    }
}

/// The pushes less the pops in `insts`.
pub open spec fn net_pushes(insts: Seq<Inst>) -> int {
    net_pushes_upto(insts, insts.len())
}

proof fn lemma_net_pushes_prefix(a: Seq<Inst>, b: Seq<Inst>, k: nat)
    requires
        k <= a.len(),
    ensures
        net_pushes_upto(a + b, k) == net_pushes_upto(a, k),
    decreases k,
{
    if k > 0 {
        lemma_net_pushes_prefix(a, b, (k - 1) as nat);
    }
}

proof fn lemma_net_pushes_suffix(a: Seq<Inst>, b: Seq<Inst>, k: nat)
    requires
        k <= b.len(),
    ensures
        net_pushes_upto(a + b, a.len() + k) == net_pushes(a) + net_pushes_upto(b, k),
    decreases k,
{
    if k == 0 {
        lemma_net_pushes_prefix(a, b, a.len());
    } else {
        lemma_net_pushes_suffix(a, b, (k - 1) as nat);
    }
}

/// The pushes less the pops of two pieces of code add up.
pub proof fn lemma_net_pushes_concat(a: Seq<Inst>, b: Seq<Inst>)
    ensures
        net_pushes(a + b) == net_pushes(a) + net_pushes(b),
{
    lemma_net_pushes_suffix(a, b, b.len());
}

proof fn lemma_net_pushes_pops(count: nat, k: nat)
    requires
        k <= count,
    ensures
        net_pushes_upto(pops(count), k) == -k,
    decreases k,
{
    if k > 0 {
        lemma_net_pushes_pops(count, (k - 1) as nat);
    }
}

proof fn lemma_net_pushes_blocks()
    ensures
        forall|op: BinOp| net_pushes(#[trigger] operation(op)) == 1,
        forall|name: Seq<char>, sc: nat| net_pushes(#[trigger] aligned_call(name, sc)) == 1,
        forall|tag: Tag, sc: nat| net_pushes(#[trigger] branch_if_zero(tag, sc)) == -1,
        forall|count: nat| net_pushes(#[trigger] pops(count)) == -count,
{
    assert forall|op: BinOp| net_pushes(#[trigger] operation(op)) == 1 by {
        reveal_with_fuel(net_pushes_upto, 5);
        match op {
            BinOp::Add => {},
            BinOp::Sub => {},
            BinOp::Mul => {},
            BinOp::Div => {},
            BinOp::Eq => {},
            BinOp::Ne => {},
            BinOp::Lt => {},
            BinOp::Le => {},
        }
    }
    assert forall|name: Seq<char>, sc: nat| net_pushes(#[trigger] aligned_call(name, sc)) == 1 by {
        reveal_with_fuel(net_pushes_upto, 14);
    }
    assert forall|tag: Tag, sc: nat| net_pushes(#[trigger] branch_if_zero(tag, sc)) == -1 by {
        reveal_with_fuel(net_pushes_upto, 4);
    }
    assert forall|count: nat| net_pushes(#[trigger] pops(count)) == -count by {
        lemma_net_pushes_pops(count, count);
    }
}

proof fn lemma_net_pushes_pieces()
    ensures
        forall|v: nat| net_pushes(#[trigger] seq![Inst::PushNum(v)]) == 1,
        forall|k: nat| net_pushes(#[trigger] seq![Inst::Address(k), Inst::Push(Reg::Rax)]) == 1,
        net_pushes(seq![Inst::Pop(Reg::Rax), Inst::Load, Inst::Push(Reg::Rax)]) == 0,
        net_pushes(
            seq![Inst::Pop(Reg::Rdi), Inst::Pop(Reg::Rax), Inst::Store, Inst::Push(Reg::Rdi)],
        ) == -1,
        net_pushes(seq![Inst::Pop(Reg::Rdi), Inst::Pop(Reg::Rax)]) == -2,
        net_pushes(seq![Inst::Pop(Reg::Rax)]) == -1,
        net_pushes(Seq::<Inst>::empty()) == 0,
        forall|label: Label|
            net_pushes(#[trigger] seq![Inst::Pop(Reg::Rax), Inst::Go(Jump::Always, label)]) == -1,
        forall|a: Label, b: Label|
            net_pushes(#[trigger] seq![Inst::Go(Jump::Always, a), Inst::Mark(b)]) == 0,
        forall|a: Label| net_pushes(#[trigger] seq![Inst::Mark(a)]) == 0,
{
    reveal_with_fuel(net_pushes_upto, 5);
}

/// The code of an expression pushes one value more than it pops.
#[verifier::spinoff_prover]
pub proof fn lemma_expression_pushes_one(a: Ast, n: nat, frame: nat)
    requires
        expr_code(a, n, frame) is Ok,
    ensures
        net_pushes(expr_code(a, n, frame)->Ok_0.insts) == 1,
    decreases a, 0nat,
{
    reveal(expr_code);
    reveal(args_code);
    lemma_net_pushes_blocks();
    lemma_net_pushes_pieces();
    match a {
        Ast::Num(v) => {},
        Ast::Var(_) => {
            let addr = address_code(a, frame)->Ok_0;
            lemma_net_pushes_concat(
                addr,
                seq![Inst::Pop(Reg::Rax), Inst::Load, Inst::Push(Reg::Rax)],
            );
        },
        Ast::Assign(place, value) => {
            let addr = address_code(*place, frame)->Ok_0;
            let v = expr_code(*value, n, frame)->Ok_0;
            lemma_expression_pushes_one(*value, n, frame);
            lemma_net_pushes_concat(addr, v.insts);
            lemma_net_pushes_concat(
                addr + v.insts,
                seq![Inst::Pop(Reg::Rdi), Inst::Pop(Reg::Rax), Inst::Store, Inst::Push(Reg::Rdi)],
            );
        },
        Ast::Binary(op, lhs, rhs) => {
            let l = expr_code(*lhs, n, frame)->Ok_0;
            let r = expr_code(*rhs, l.next, frame)->Ok_0;
            lemma_expression_pushes_one(*lhs, n, frame);
            lemma_expression_pushes_one(*rhs, l.next, frame);
            lemma_net_pushes_concat(l.insts, r.insts);
            lemma_net_pushes_concat(
                l.insts + r.insts,
                seq![Inst::Pop(Reg::Rdi), Inst::Pop(Reg::Rax)],
            );
            lemma_net_pushes_concat(
                l.insts + r.insts + seq![Inst::Pop(Reg::Rdi), Inst::Pop(Reg::Rax)],
                operation(op),
            );
        },
        Ast::Call(name, args) => {
            let c = args_code(args, 0, n, frame)->Ok_0;
            lemma_arguments_push_one_each(args, 0, n, frame);
            lemma_net_pushes_concat(c.insts, pops(args.len()));
            lemma_net_pushes_concat(c.insts + pops(args.len()), aligned_call(name, c.next));
        },
        _ => {},
    }
}

/// The code of the arguments of a call pushes one value for each of them.
pub proof fn lemma_arguments_push_one_each(args: Seq<Ast>, i: nat, n: nat, frame: nat)
    requires
        args_code(args, i, n, frame) is Ok,
        i <= args.len(),
    ensures
        net_pushes(args_code(args, i, n, frame)->Ok_0.insts) == args.len() - i,
    decreases args, args.len() - i,
{
    reveal(expr_code);
    reveal(args_code);
    if i < args.len() {
        let c = expr_code(args[i as int], n, frame)->Ok_0;
        let rest = args_code(args, i + 1, c.next, frame)->Ok_0;
        lemma_expression_pushes_one(args[i as int], n, frame);
        lemma_arguments_push_one_each(args, i + 1, c.next, frame);
        lemma_net_pushes_concat(c.insts, rest.insts);
    }
}

/// The code of a statement pops as many values as it pushes: a statement
/// leaves the stack as it found it. Where the statement is an expression,
/// its one value is popped at the end.
#[verifier::spinoff_prover]
pub proof fn lemma_statement_balanced(a: Ast, n: nat, fname: Seq<char>, frame: nat)
    requires
        stmt_code(a, n, fname, frame) is Ok,
    ensures
        net_pushes(stmt_code(a, n, fname, frame)->Ok_0.insts) == 0,
    decreases a, 0nat,
{
    reveal(stmt_code);
    reveal(stmts_code);
    lemma_net_pushes_blocks();
    lemma_net_pushes_pieces();
    match a {
        Ast::Nothing => {},
        Ast::Return(value) => {
            let v = expr_code(*value, n, frame)->Ok_0;
            lemma_expression_pushes_one(*value, n, frame);
            lemma_net_pushes_concat(
                v.insts,
                seq![Inst::Pop(Reg::Rax), Inst::Go(Jump::Always, Label::Return(fname))],
            );
        },
        Ast::If(cond, cons, alt) => {
            let c = expr_code(*cond, n + 1, frame)->Ok_0;
            let t = stmt_code(*cons, c.next, fname, frame)->Ok_0;
            let f = stmt_code(*alt, t.next, fname, frame)->Ok_0;
            lemma_expression_pushes_one(*cond, n + 1, frame);
            lemma_statement_balanced(*cons, c.next, fname, frame);
            lemma_statement_balanced(*alt, t.next, fname, frame);
            let s1 = c.insts + branch_if_zero(Tag::Else, n);
            let mid = seq![
                Inst::Go(Jump::Always, Label::Local(Tag::End, n)),
                Inst::Mark(Label::Local(Tag::Else, n)),
            ];
            let s2 = s1 + t.insts;
            let s3 = s2 + mid;
            let s4 = s3 + f.insts;
            lemma_net_pushes_concat(c.insts, branch_if_zero(Tag::Else, n));
            lemma_net_pushes_concat(s1, t.insts);
            lemma_net_pushes_concat(s2, mid);
            lemma_net_pushes_concat(s3, f.insts);
            lemma_net_pushes_concat(s4, seq![Inst::Mark(Label::Local(Tag::End, n))]);
        },
        Ast::While(cond, body) => {
            let c = expr_code(*cond, n + 1, frame)->Ok_0;
            let b = stmt_code(*body, c.next, fname, frame)->Ok_0;
            lemma_expression_pushes_one(*cond, n + 1, frame);
            lemma_statement_balanced(*body, c.next, fname, frame);
            let s0 = seq![Inst::Mark(Label::Local(Tag::Begin, n))];
            let s1 = s0 + c.insts;
            let s2 = s1 + branch_if_zero(Tag::End, n);
            let s3 = s2 + b.insts;
            lemma_net_pushes_concat(s0, c.insts);
            lemma_net_pushes_concat(s1, branch_if_zero(Tag::End, n));
            lemma_net_pushes_concat(s2, b.insts);
            lemma_net_pushes_concat(
                s3,
                seq![
                    Inst::Go(Jump::Always, Label::Local(Tag::Begin, n)),
                    Inst::Mark(Label::Local(Tag::End, n)),
                ],
            );
        },
        Ast::For(init, cond, inc, body) => {
            let i = stmt_code(*init, n + 1, fname, frame)->Ok_0;
            let c = test_code(*cond, i.next, frame, n)->Ok_0;
            let b = stmt_code(*body, c.next, fname, frame)->Ok_0;
            let s = stmt_code(*inc, b.next, fname, frame)->Ok_0;
            lemma_statement_balanced(*init, n + 1, fname, frame);
            if !(*cond is Nothing) {
                let e = expr_code(*cond, i.next, frame)->Ok_0;
                lemma_expression_pushes_one(*cond, i.next, frame);
                lemma_net_pushes_concat(e.insts, branch_if_zero(Tag::End, n));
            }
            lemma_statement_balanced(*body, c.next, fname, frame);
            lemma_statement_balanced(*inc, b.next, fname, frame);
            let s1 = i.insts + seq![Inst::Mark(Label::Local(Tag::Begin, n))];
            let s2 = s1 + c.insts;
            let s3 = s2 + b.insts;
            let s4 = s3 + s.insts;
            lemma_net_pushes_concat(i.insts, seq![Inst::Mark(Label::Local(Tag::Begin, n))]);
            lemma_net_pushes_concat(s1, c.insts);
            lemma_net_pushes_concat(s2, b.insts);
            lemma_net_pushes_concat(s3, s.insts);
            lemma_net_pushes_concat(
                s4,
                seq![
                    Inst::Go(Jump::Always, Label::Local(Tag::Begin, n)),
                    Inst::Mark(Label::Local(Tag::End, n)),
                ],
            );
        },
        Ast::Block(stmts) => {
            lemma_statements_balanced(stmts, 0, n, fname, frame);
        },
        Ast::Function { .. } => {},
        _ => {
            let v = expr_code(a, n, frame)->Ok_0;
            lemma_expression_pushes_one(a, n, frame);
            lemma_net_pushes_concat(v.insts, seq![Inst::Pop(Reg::Rax)]);
            assert(v.insts.push(Inst::Pop(Reg::Rax)) =~= v.insts + seq![Inst::Pop(Reg::Rax)]);
        },
    }
}

/// The code of a sequence of statements leaves the stack as it found it.
pub proof fn lemma_statements_balanced(
    stmts: Seq<Ast>,
    i: nat,
    n: nat,
    fname: Seq<char>,
    frame: nat,
)
    requires
        stmts_code(stmts, i, n, fname, frame) is Ok,
    ensures
        net_pushes(stmts_code(stmts, i, n, fname, frame)->Ok_0.insts) == 0,
    decreases stmts, stmts.len() - i,
{
    reveal(stmt_code);
    reveal(stmts_code);
    if i < stmts.len() {
        let c = stmt_code(stmts[i as int], n, fname, frame)->Ok_0;
        let rest = stmts_code(stmts, i + 1, c.next, fname, frame)->Ok_0;
        lemma_statement_balanced(stmts[i as int], n, fname, frame);
        lemma_statements_balanced(stmts, i + 1, c.next, fname, frame);
        lemma_net_pushes_concat(c.insts, rest.insts);
    }
}

/// How many of the first `k` instructions satisfy `p`.
pub open spec fn count_upto(insts: Seq<Inst>, p: spec_fn(Inst) -> bool, k: nat) -> nat
    decreases k,
{
    if k == 0 {
        0
    } else {
        count_upto(insts, p, (k - 1) as nat) + if p(insts[k - 1]) {
            1nat
        } else {
            0nat
        }
    }
}

/// How many instructions of `insts` satisfy `p`.
pub open spec fn count(insts: Seq<Inst>, p: spec_fn(Inst) -> bool) -> nat {
    count_upto(insts, p, insts.len())
}

proof fn lemma_count_prefix(a: Seq<Inst>, b: Seq<Inst>, p: spec_fn(Inst) -> bool, k: nat)
    requires
        k <= a.len(),
    ensures
        count_upto(a + b, p, k) == count_upto(a, p, k),
    decreases k,
{
    if k > 0 {
        lemma_count_prefix(a, b, p, (k - 1) as nat);
    }
}

proof fn lemma_count_suffix(a: Seq<Inst>, b: Seq<Inst>, p: spec_fn(Inst) -> bool, k: nat)
    requires
        k <= b.len(),
    ensures
        count_upto(a + b, p, a.len() + k) == count(a, p) + count_upto(b, p, k),
    decreases k,
{
    if k == 0 {
        lemma_count_prefix(a, b, p, a.len());
    } else {
        lemma_count_suffix(a, b, p, (k - 1) as nat);
    }
}

/// Counts of two pieces of code add up.
pub proof fn lemma_count_concat(a: Seq<Inst>, b: Seq<Inst>, p: spec_fn(Inst) -> bool)
    ensures
        count(a + b, p) == count(a, p) + count(b, p),
{
    lemma_count_suffix(a, b, p, b.len());
}

proof fn lemma_count_none_upto(insts: Seq<Inst>, p: spec_fn(Inst) -> bool, k: nat)
    requires
        k <= insts.len(),
        forall|i: int| 0 <= i < insts.len() ==> !p(#[trigger] insts[i]),
    ensures
        count_upto(insts, p, k) == 0,
    decreases k,
{
    if k > 0 {
        lemma_count_none_upto(insts, p, (k - 1) as nat);
    }
}

/// Where no instruction satisfies `p`, the count is zero.
pub proof fn lemma_count_none(insts: Seq<Inst>, p: spec_fn(Inst) -> bool)
    requires
        forall|i: int| 0 <= i < insts.len() ==> !p(#[trigger] insts[i]),
    ensures
        count(insts, p) == 0,
{
    lemma_count_none_upto(insts, p, insts.len());
}

proof fn lemma_count_grows(insts: Seq<Inst>, p: spec_fn(Inst) -> bool, k: nat, m: nat)
    requires
        k <= m <= insts.len(),
    ensures
        count_upto(insts, p, k) <= count_upto(insts, p, m),
    decreases m - k,
{
    if k < m {
        lemma_count_grows(insts, p, k, (m - 1) as nat);
    }
}

/// Two different instructions that satisfy `p` make the count two at least.
pub proof fn lemma_count_two(insts: Seq<Inst>, p: spec_fn(Inst) -> bool, i: int, j: int)
    requires
        0 <= i < j < insts.len(),
        p(insts[i]),
        p(insts[j]),
    ensures
        count(insts, p) >= 2,
{
    lemma_count_grows(insts, p, 0, i as nat);
    lemma_count_grows(insts, p, (i + 1) as nat, j as nat);
    lemma_count_grows(insts, p, (j + 1) as nat, insts.len());
}

/// The numbered label that `inst` defines, if it defines one.
pub open spec fn numbered(inst: Inst) -> Option<(Tag, nat)> {
    match inst {
        Inst::Mark(Label::Local(tag, k)) => Some((tag, k)),
        _ => None,
    }
}

/// The instructions that define the numbered label `label`.
pub open spec fn defines(label: (Tag, nat)) -> spec_fn(Inst) -> bool {
    |inst: Inst| numbered(inst) == Some(label)
}

/// How often `insts` defines the numbered label `label`.
pub open spec fn definitions(insts: Seq<Inst>, label: (Tag, nat)) -> nat {
    count(insts, defines(label))
}

/// No two instructions of `insts` define the same numbered label.
pub open spec fn labels_unique(insts: Seq<Inst>) -> bool {
    forall|i: int, j: int|
        #![trigger insts[i], insts[j]]
        0 <= i < j < insts.len() && numbered(insts[i]) is Some ==> numbered(insts[i]) != numbered(
            insts[j],
        )
}

/// Code whose every numbered label is defined once at most has no two
/// definitions of one label.
pub proof fn lemma_unique_by_count(insts: Seq<Inst>)
    requires
        forall|label: (Tag, nat)| definitions(insts, label) <= 1,
    ensures
        labels_unique(insts),
{
    assert forall|i: int, j: int|
        #![trigger insts[i], insts[j]]
        0 <= i < j < insts.len() && numbered(insts[i]) is Some implies numbered(insts[i])
        != numbered(insts[j]) by {
        if numbered(insts[i]) == numbered(insts[j]) {
            let label = numbered(insts[i])->0;
            lemma_count_two(insts, defines(label), i, j);
            assert(definitions(insts, label) >= 2);
        }
    }
}

/// What holds of the labels of code that numbers its labels from `n` on and
/// leaves the counter at `next`: `label` is defined once at most, and not at
/// all unless its number lies from `n` up to `next`.
pub open spec fn labels_ok(insts: Seq<Inst>, n: nat, next: nat, label: (Tag, nat)) -> bool {
    &&& n <= next
    &&& definitions(insts, label) <= 1
    &&& (label.1 < n || label.1 >= next) ==> definitions(insts, label) == 0
}

proof fn lemma_plain(insts: Seq<Inst>, label: (Tag, nat))
    requires
        forall|i: int| 0 <= i < insts.len() ==> numbered(#[trigger] insts[i]) is None,
    ensures
        definitions(insts, label) == 0,
{
    lemma_count_none(insts, defines(label));
}

proof fn lemma_definitions_blocks(label: (Tag, nat))
    ensures
        forall|op: BinOp| definitions(#[trigger] operation(op), label) == 0,
        forall|name: Seq<char>, sc: nat|
            definitions(#[trigger] aligned_call(name, sc), label) == (if label == (Tag::Call, sc)
                || label == (Tag::CallEnd, sc) {
                1nat
            } else {
                0nat
            }),
        forall|tag: Tag, sc: nat| definitions(#[trigger] branch_if_zero(tag, sc), label) == 0,
        forall|count: nat| definitions(#[trigger] pops(count), label) == 0,
        forall|name: Seq<char>, frame: nat|
            definitions(#[trigger] prologue(name, frame), label) == 0,
        forall|name: Seq<char>| definitions(#[trigger] epilogue(name), label) == 0,
{
    assert forall|op: BinOp| definitions(#[trigger] operation(op), label) == 0 by {
        lemma_plain(operation(op), label);
    }
    assert forall|name: Seq<char>, sc: nat|
        definitions(#[trigger] aligned_call(name, sc), label) == (if label == (Tag::Call, sc)
            || label == (Tag::CallEnd, sc) {
            1nat
        } else {
            0nat
        }) by {
        reveal_with_fuel(count_upto, 14);
    }
    assert forall|tag: Tag, sc: nat|
        definitions(#[trigger] branch_if_zero(tag, sc), label) == 0 by {
        lemma_plain(branch_if_zero(tag, sc), label);
    }
    assert forall|count: nat| definitions(#[trigger] pops(count), label) == 0 by {
        lemma_plain(pops(count), label);
    }
    assert forall|name: Seq<char>, frame: nat|
        definitions(#[trigger] prologue(name, frame), label) == 0 by {
        lemma_plain(prologue(name, frame), label);
    }
    assert forall|name: Seq<char>| definitions(#[trigger] epilogue(name), label) == 0 by {
        lemma_plain(epilogue(name), label);
    }
}

proof fn lemma_definitions_pieces(label: (Tag, nat))
    ensures
        forall|v: nat| definitions(#[trigger] seq![Inst::PushNum(v)], label) == 0,
        forall|k: nat|
            definitions(#[trigger] seq![Inst::Address(k), Inst::Push(Reg::Rax)], label) == 0,
        definitions(seq![Inst::Pop(Reg::Rax), Inst::Load, Inst::Push(Reg::Rax)], label) == 0,
        definitions(
            seq![Inst::Pop(Reg::Rdi), Inst::Pop(Reg::Rax), Inst::Store, Inst::Push(Reg::Rdi)],
            label,
        ) == 0,
        definitions(seq![Inst::Pop(Reg::Rdi), Inst::Pop(Reg::Rax)], label) == 0,
        definitions(seq![Inst::Pop(Reg::Rax)], label) == 0,
        definitions(Seq::<Inst>::empty(), label) == 0,
        forall|name: Seq<char>|
            definitions(
                #[trigger] seq![
                    Inst::Pop(Reg::Rax),
                    Inst::Go(Jump::Always, Label::Return(name)),
                ],
                label,
            ) == 0,
        forall|tag: Tag, n: nat|
            definitions(#[trigger] seq![Inst::Mark(Label::Local(tag, n))], label) == (if label == (
                tag,
                n,
            ) {
                1nat
            } else {
                0nat
            }),
        forall|to: Label, tag: Tag, n: nat|
            definitions(
                #[trigger] seq![Inst::Go(Jump::Always, to), Inst::Mark(Label::Local(tag, n))],
                label,
            ) == (if label == (tag, n) {
                1nat
            } else {
                0nat
            }),
{
    reveal_with_fuel(count_upto, 5);
}

/// The labels of the code of an expression: see [`labels_ok`].
#[verifier::spinoff_prover]
pub proof fn lemma_expression_labels(a: Ast, n: nat, frame: nat, label: (Tag, nat))
    requires
        expr_code(a, n, frame) is Ok,
    ensures
        labels_ok(expr_code(a, n, frame)->Ok_0.insts, n, expr_code(a, n, frame)->Ok_0.next, label),
    decreases a, 0nat,
{
    reveal(expr_code);
    reveal(args_code);
    lemma_definitions_blocks(label);
    lemma_definitions_pieces(label);
    let p = defines(label);
    match a {
        Ast::Num(v) => {},
        Ast::Var(_) => {
            let addr = address_code(a, frame)->Ok_0;
            lemma_count_concat(
                addr,
                seq![Inst::Pop(Reg::Rax), Inst::Load, Inst::Push(Reg::Rax)],
                p,
            );
        },
        Ast::Assign(place, value) => {
            let addr = address_code(*place, frame)->Ok_0;
            let v = expr_code(*value, n, frame)->Ok_0;
            lemma_expression_labels(*value, n, frame, label);
            lemma_count_concat(addr, v.insts, p);
            lemma_count_concat(
                addr + v.insts,
                seq![Inst::Pop(Reg::Rdi), Inst::Pop(Reg::Rax), Inst::Store, Inst::Push(Reg::Rdi)],
                p,
            );
        },
        Ast::Binary(op, lhs, rhs) => {
            let l = expr_code(*lhs, n, frame)->Ok_0;
            let r = expr_code(*rhs, l.next, frame)->Ok_0;
            lemma_expression_labels(*lhs, n, frame, label);
            lemma_expression_labels(*rhs, l.next, frame, label);
            lemma_count_concat(l.insts, r.insts, p);
            lemma_count_concat(
                l.insts + r.insts,
                seq![Inst::Pop(Reg::Rdi), Inst::Pop(Reg::Rax)],
                p,
            );
            lemma_count_concat(
                l.insts + r.insts + seq![Inst::Pop(Reg::Rdi), Inst::Pop(Reg::Rax)],
                operation(op),
                p,
            );
        },
        Ast::Call(name, args) => {
            let c = args_code(args, 0, n, frame)->Ok_0;
            lemma_arguments_labels(args, 0, n, frame, label);
            lemma_count_concat(c.insts, pops(args.len()), p);
            lemma_count_concat(c.insts + pops(args.len()), aligned_call(name, c.next), p);
        },
        _ => {},
    }
}

/// The labels of the code of the arguments of a call: see [`labels_ok`].
pub proof fn lemma_arguments_labels(args: Seq<Ast>, i: nat, n: nat, frame: nat, label: (Tag, nat))
    requires
        args_code(args, i, n, frame) is Ok,
    ensures
        labels_ok(
            args_code(args, i, n, frame)->Ok_0.insts,
            n,
            args_code(args, i, n, frame)->Ok_0.next,
            label,
        ),
    decreases args, args.len() - i,
{
    reveal(expr_code);
    reveal(args_code);
    lemma_definitions_pieces(label);
    if i < args.len() {
        let c = expr_code(args[i as int], n, frame)->Ok_0;
        let rest = args_code(args, i + 1, c.next, frame)->Ok_0;
        lemma_expression_labels(args[i as int], n, frame, label);
        lemma_arguments_labels(args, i + 1, c.next, frame, label);
        lemma_count_concat(c.insts, rest.insts, defines(label));
    }
}

/// The labels of the code of a statement: see [`labels_ok`].
#[verifier::spinoff_prover]
pub proof fn lemma_statement_labels(
    a: Ast,
    n: nat,
    fname: Seq<char>,
    frame: nat,
    label: (Tag, nat),
)
    requires
        stmt_code(a, n, fname, frame) is Ok,
    ensures
        labels_ok(
            stmt_code(a, n, fname, frame)->Ok_0.insts,
            n,
            stmt_code(a, n, fname, frame)->Ok_0.next,
            label,
        ),
    decreases a, 0nat,
{
    reveal(stmt_code);
    reveal(stmts_code);
    lemma_definitions_blocks(label);
    lemma_definitions_pieces(label);
    let p = defines(label);
    match a {
        Ast::Nothing => {},
        Ast::Return(value) => {
            let v = expr_code(*value, n, frame)->Ok_0;
            lemma_expression_labels(*value, n, frame, label);
            lemma_count_concat(
                v.insts,
                seq![Inst::Pop(Reg::Rax), Inst::Go(Jump::Always, Label::Return(fname))],
                p,
            );
        },
        Ast::If(cond, cons, alt) => {
            let c = expr_code(*cond, n + 1, frame)->Ok_0;
            let t = stmt_code(*cons, c.next, fname, frame)->Ok_0;
            let f = stmt_code(*alt, t.next, fname, frame)->Ok_0;
            lemma_expression_labels(*cond, n + 1, frame, label);
            lemma_statement_labels(*cons, c.next, fname, frame, label);
            lemma_statement_labels(*alt, t.next, fname, frame, label);
            let s1 = c.insts + branch_if_zero(Tag::Else, n);
            let mid = seq![
                Inst::Go(Jump::Always, Label::Local(Tag::End, n)),
                Inst::Mark(Label::Local(Tag::Else, n)),
            ];
            let s2 = s1 + t.insts;
            let s3 = s2 + mid;
            let s4 = s3 + f.insts;
            lemma_count_concat(c.insts, branch_if_zero(Tag::Else, n), p);
            lemma_count_concat(s1, t.insts, p);
            lemma_count_concat(s2, mid, p);
            lemma_count_concat(s3, f.insts, p);
            lemma_count_concat(s4, seq![Inst::Mark(Label::Local(Tag::End, n))], p);
        },
        Ast::While(cond, body) => {
            let c = expr_code(*cond, n + 1, frame)->Ok_0;
            let b = stmt_code(*body, c.next, fname, frame)->Ok_0;
            lemma_expression_labels(*cond, n + 1, frame, label);
            lemma_statement_labels(*body, c.next, fname, frame, label);
            let s0 = seq![Inst::Mark(Label::Local(Tag::Begin, n))];
            let s1 = s0 + c.insts;
            let s2 = s1 + branch_if_zero(Tag::End, n);
            let s3 = s2 + b.insts;
            lemma_count_concat(s0, c.insts, p);
            lemma_count_concat(s1, branch_if_zero(Tag::End, n), p);
            lemma_count_concat(s2, b.insts, p);
            lemma_count_concat(
                s3,
                seq![
                    Inst::Go(Jump::Always, Label::Local(Tag::Begin, n)),
                    Inst::Mark(Label::Local(Tag::End, n)),
                ],
                p,
            );
        },
        Ast::For(init, cond, inc, body) => {
            let i = stmt_code(*init, n + 1, fname, frame)->Ok_0;
            let c = test_code(*cond, i.next, frame, n)->Ok_0;
            let b = stmt_code(*body, c.next, fname, frame)->Ok_0;
            let s = stmt_code(*inc, b.next, fname, frame)->Ok_0;
            lemma_statement_labels(*init, n + 1, fname, frame, label);
            if !(*cond is Nothing) {
                let e = expr_code(*cond, i.next, frame)->Ok_0;
                lemma_expression_labels(*cond, i.next, frame, label);
                lemma_count_concat(e.insts, branch_if_zero(Tag::End, n), p);
            }
            lemma_statement_labels(*body, c.next, fname, frame, label);
            lemma_statement_labels(*inc, b.next, fname, frame, label);
            let s1 = i.insts + seq![Inst::Mark(Label::Local(Tag::Begin, n))];
            let s2 = s1 + c.insts;
            let s3 = s2 + b.insts;
            let s4 = s3 + s.insts;
            lemma_count_concat(i.insts, seq![Inst::Mark(Label::Local(Tag::Begin, n))], p);
            lemma_count_concat(s1, c.insts, p);
            lemma_count_concat(s2, b.insts, p);
            lemma_count_concat(s3, s.insts, p);
            lemma_count_concat(
                s4,
                seq![
                    Inst::Go(Jump::Always, Label::Local(Tag::Begin, n)),
                    Inst::Mark(Label::Local(Tag::End, n)),
                ],
                p,
            );
        },
        Ast::Block(stmts) => {
            lemma_statements_labels(stmts, 0, n, fname, frame, label);
        },
        Ast::Function { .. } => {},
        _ => {
            let v = expr_code(a, n, frame)->Ok_0;
            lemma_expression_labels(a, n, frame, label);
            lemma_count_concat(v.insts, seq![Inst::Pop(Reg::Rax)], p);
            assert(v.insts.push(Inst::Pop(Reg::Rax)) =~= v.insts + seq![Inst::Pop(Reg::Rax)]);
        },
    }
}

/// The labels of the code of a sequence of statements: see [`labels_ok`].
pub proof fn lemma_statements_labels(
    stmts: Seq<Ast>,
    i: nat,
    n: nat,
    fname: Seq<char>,
    frame: nat,
    label: (Tag, nat),
)
    requires
        stmts_code(stmts, i, n, fname, frame) is Ok,
    ensures
        labels_ok(
            stmts_code(stmts, i, n, fname, frame)->Ok_0.insts,
            n,
            stmts_code(stmts, i, n, fname, frame)->Ok_0.next,
            label,
        ),
    decreases stmts, stmts.len() - i,
{
    reveal(stmt_code);
    reveal(stmts_code);
    lemma_definitions_pieces(label);
    if i < stmts.len() {
        let c = stmt_code(stmts[i as int], n, fname, frame)->Ok_0;
        let rest = stmts_code(stmts, i + 1, c.next, fname, frame)->Ok_0;
        lemma_statement_labels(stmts[i as int], n, fname, frame, label);
        lemma_statements_labels(stmts, i + 1, c.next, fname, frame, label);
        lemma_count_concat(c.insts, rest.insts, defines(label));
    }
}

proof fn lemma_spills_plain(params: Seq<Ast>, i: nat, frame: nat)
    requires
        spills(params, i, frame) is Ok,
    ensures
        forall|k: int|
            0 <= k < spills(params, i, frame)->Ok_0.len() ==> (#[trigger] spills(
                params,
                i,
                frame,
            )->Ok_0[k]) is Spill,
    decreases params.len() - i,
{
    reveal(spills);
    if i < params.len() {
        lemma_spills_plain(params, i + 1, frame);
    }
}

/// The labels of the routine of a function: see [`labels_ok`].
pub proof fn lemma_function_labels(f: Ast, n: nat, label: (Tag, nat))
    requires
        function_code(f, n) is Ok,
    ensures
        labels_ok(function_code(f, n)->Ok_0.insts, n, function_code(f, n)->Ok_0.next, label),
{
    lemma_definitions_blocks(label);
    let p = defines(label);
    match f {
        Ast::Function { name, body, params, frame } => {
            let copies = spills(params, 0, frame)->Ok_0;
            let b = stmts_code(body, 0, n, name, frame)->Ok_0;
            lemma_spills_plain(params, 0, frame);
            lemma_plain(copies, label);
            lemma_statements_labels(body, 0, n, name, frame, label);
            lemma_count_concat(prologue(name, frame), copies, p);
            lemma_count_concat(prologue(name, frame) + copies, b.insts, p);
            lemma_count_concat(prologue(name, frame) + copies + b.insts, epilogue(name), p);
        },
        _ => {},
    }
}

/// The labels of the routines of the functions from index `i` on: see
/// [`labels_ok`].
pub proof fn lemma_functions_labels(funcs: Seq<Ast>, i: nat, n: nat, label: (Tag, nat))
    requires
        functions_code(funcs, i, n) is Ok,
    ensures
        labels_ok(
            functions_code(funcs, i, n)->Ok_0.insts,
            n,
            functions_code(funcs, i, n)->Ok_0.next,
            label,
        ),
    decreases funcs.len() - i,
{
    reveal(functions_code);
    lemma_definitions_pieces(label);
    if i < funcs.len() {
        let c = function_code(funcs[i as int], n)->Ok_0;
        let rest = functions_code(funcs, i + 1, c.next)->Ok_0;
        lemma_function_labels(funcs[i as int], n, label);
        lemma_functions_labels(funcs, i + 1, c.next, label);
        lemma_count_concat(c.insts, rest.insts, defines(label));
    }
}

/// Label uniqueness: in the code of a whole program no numbered label is
/// defined twice, whichever `if`, loop or call site of whichever function
/// it belongs to.
pub proof fn lemma_program_labels_unique(funcs: Seq<Ast>)
    requires
        program_code(funcs) is Ok,
    ensures
        labels_unique(program_code(funcs)->Ok_0),
        forall|label: (Tag, nat)| definitions(program_code(funcs)->Ok_0, label) <= 1,
{
    let insts = program_code(funcs)->Ok_0;
    assert forall|label: (Tag, nat)| definitions(insts, label) <= 1 by {
        lemma_functions_labels(funcs, 0, 0, label);
    }
    lemma_unique_by_count(insts);
}

/// The instructions that open a routine: the label of a function's name.
pub open spec fn opens_routine() -> spec_fn(Inst) -> bool {
    |inst: Inst| inst is Entry
}

/// The instructions that define the epilogue label of a routine.
pub open spec fn closes_routine() -> spec_fn(Inst) -> bool {
    |inst: Inst| inst matches Inst::Mark(Label::Return(_))
}

/// Whether `p` holds of no instruction but those that open or close a
/// routine.
pub open spec fn at_boundary(p: spec_fn(Inst) -> bool) -> bool {
    forall|inst: Inst| #[trigger] p(inst) ==> opens_routine()(inst) || closes_routine()(inst)
}

proof fn lemma_boundary_blocks(p: spec_fn(Inst) -> bool)
    requires
        at_boundary(p),
    ensures
        forall|op: BinOp| count(#[trigger] operation(op), p) == 0,
        forall|name: Seq<char>, sc: nat| count(#[trigger] aligned_call(name, sc), p) == 0,
        forall|tag: Tag, sc: nat| count(#[trigger] branch_if_zero(tag, sc), p) == 0,
        forall|n: nat| count(#[trigger] pops(n), p) == 0,
{
    assert forall|op: BinOp| count(#[trigger] operation(op), p) == 0 by {
        lemma_count_none(operation(op), p);
    }
    assert forall|name: Seq<char>, sc: nat| count(#[trigger] aligned_call(name, sc), p) == 0 by {
        lemma_count_none(aligned_call(name, sc), p);
    }
    assert forall|tag: Tag, sc: nat| count(#[trigger] branch_if_zero(tag, sc), p) == 0 by {
        lemma_count_none(branch_if_zero(tag, sc), p);
    }
    assert forall|n: nat| count(#[trigger] pops(n), p) == 0 by {
        lemma_count_none(pops(n), p);
    }
}

proof fn lemma_boundary_pieces(p: spec_fn(Inst) -> bool)
    requires
        at_boundary(p),
    ensures
        forall|v: nat| count(#[trigger] seq![Inst::PushNum(v)], p) == 0,
        forall|k: nat| count(#[trigger] seq![Inst::Address(k), Inst::Push(Reg::Rax)], p) == 0,
        count(seq![Inst::Pop(Reg::Rax), Inst::Load, Inst::Push(Reg::Rax)], p) == 0,
        count(
            seq![Inst::Pop(Reg::Rdi), Inst::Pop(Reg::Rax), Inst::Store, Inst::Push(Reg::Rdi)],
            p,
        ) == 0,
        count(seq![Inst::Pop(Reg::Rdi), Inst::Pop(Reg::Rax)], p) == 0,
        count(seq![Inst::Pop(Reg::Rax)], p) == 0,
        count(Seq::<Inst>::empty(), p) == 0,
        forall|name: Seq<char>|
            count(
                #[trigger] seq![
                    Inst::Pop(Reg::Rax),
                    Inst::Go(Jump::Always, Label::Return(name)),
                ],
                p,
            ) == 0,
        forall|tag: Tag, n: nat| count(#[trigger] seq![Inst::Mark(Label::Local(tag, n))], p) == 0,
        forall|to: Label, tag: Tag, n: nat|
            count(
                #[trigger] seq![Inst::Go(Jump::Always, to), Inst::Mark(Label::Local(tag, n))],
                p,
            ) == 0,
{
    reveal_with_fuel(count_upto, 5);
}

/// The code of an expression neither opens nor closes a routine.
#[verifier::spinoff_prover]
pub proof fn lemma_expression_inside(a: Ast, n: nat, frame: nat, p: spec_fn(Inst) -> bool)
    requires
        expr_code(a, n, frame) is Ok,
        at_boundary(p),
    ensures
        count(expr_code(a, n, frame)->Ok_0.insts, p) == 0,
    decreases a, 0nat,
{
    reveal(expr_code);
    reveal(args_code);
    lemma_boundary_blocks(p);
    lemma_boundary_pieces(p);
    match a {
        Ast::Num(v) => {},
        Ast::Var(_) => {
            let addr = address_code(a, frame)->Ok_0;
            lemma_count_concat(
                addr,
                seq![Inst::Pop(Reg::Rax), Inst::Load, Inst::Push(Reg::Rax)],
                p,
            );
        },
        Ast::Assign(place, value) => {
            let addr = address_code(*place, frame)->Ok_0;
            let v = expr_code(*value, n, frame)->Ok_0;
            lemma_expression_inside(*value, n, frame, p);
            lemma_count_concat(addr, v.insts, p);
            lemma_count_concat(
                addr + v.insts,
                seq![Inst::Pop(Reg::Rdi), Inst::Pop(Reg::Rax), Inst::Store, Inst::Push(Reg::Rdi)],
                p,
            );
        },
        Ast::Binary(op, lhs, rhs) => {
            let l = expr_code(*lhs, n, frame)->Ok_0;
            let r = expr_code(*rhs, l.next, frame)->Ok_0;
            lemma_expression_inside(*lhs, n, frame, p);
            lemma_expression_inside(*rhs, l.next, frame, p);
            lemma_count_concat(l.insts, r.insts, p);
            lemma_count_concat(
                l.insts + r.insts,
                seq![Inst::Pop(Reg::Rdi), Inst::Pop(Reg::Rax)],
                p,
            );
            lemma_count_concat(
                l.insts + r.insts + seq![Inst::Pop(Reg::Rdi), Inst::Pop(Reg::Rax)],
                operation(op),
                p,
            );
        },
        Ast::Call(name, args) => {
            let c = args_code(args, 0, n, frame)->Ok_0;
            lemma_arguments_inside(args, 0, n, frame, p);
            lemma_count_concat(c.insts, pops(args.len()), p);
            lemma_count_concat(c.insts + pops(args.len()), aligned_call(name, c.next), p);
        },
        _ => {},
    }
}

/// The code of the arguments of a call neither opens nor closes a routine.
pub proof fn lemma_arguments_inside(
    args: Seq<Ast>,
    i: nat,
    n: nat,
    frame: nat,
    p: spec_fn(Inst) -> bool,
)
    requires
        args_code(args, i, n, frame) is Ok,
        at_boundary(p),
    ensures
        count(args_code(args, i, n, frame)->Ok_0.insts, p) == 0,
    decreases args, args.len() - i,
{
    reveal(expr_code);
    reveal(args_code);
    lemma_boundary_pieces(p);
    if i < args.len() {
        let c = expr_code(args[i as int], n, frame)->Ok_0;
        let rest = args_code(args, i + 1, c.next, frame)->Ok_0;
        lemma_expression_inside(args[i as int], n, frame, p);
        lemma_arguments_inside(args, i + 1, c.next, frame, p);
        lemma_count_concat(c.insts, rest.insts, p);
    }
}

/// The code of a statement neither opens nor closes a routine.
#[verifier::spinoff_prover]
pub proof fn lemma_statement_inside(
    a: Ast,
    n: nat,
    fname: Seq<char>,
    frame: nat,
    p: spec_fn(Inst) -> bool,
)
    requires
        stmt_code(a, n, fname, frame) is Ok,
        at_boundary(p),
    ensures
        count(stmt_code(a, n, fname, frame)->Ok_0.insts, p) == 0,
    decreases a, 0nat,
{
    reveal(stmt_code);
    reveal(stmts_code);
    lemma_boundary_blocks(p);
    lemma_boundary_pieces(p);
    match a {
        Ast::Nothing => {},
        Ast::Return(value) => {
            let v = expr_code(*value, n, frame)->Ok_0;
            lemma_expression_inside(*value, n, frame, p);
            lemma_count_concat(
                v.insts,
                seq![Inst::Pop(Reg::Rax), Inst::Go(Jump::Always, Label::Return(fname))],
                p,
            );
        },
        Ast::If(cond, cons, alt) => {
            let c = expr_code(*cond, n + 1, frame)->Ok_0;
            let t = stmt_code(*cons, c.next, fname, frame)->Ok_0;
            let f = stmt_code(*alt, t.next, fname, frame)->Ok_0;
            lemma_expression_inside(*cond, n + 1, frame, p);
            lemma_statement_inside(*cons, c.next, fname, frame, p);
            lemma_statement_inside(*alt, t.next, fname, frame, p);
            let s1 = c.insts + branch_if_zero(Tag::Else, n);
            let mid = seq![
                Inst::Go(Jump::Always, Label::Local(Tag::End, n)),
                Inst::Mark(Label::Local(Tag::Else, n)),
            ];
            let s2 = s1 + t.insts;
            let s3 = s2 + mid;
            let s4 = s3 + f.insts;
            lemma_count_concat(c.insts, branch_if_zero(Tag::Else, n), p);
            lemma_count_concat(s1, t.insts, p);
            lemma_count_concat(s2, mid, p);
            lemma_count_concat(s3, f.insts, p);
            lemma_count_concat(s4, seq![Inst::Mark(Label::Local(Tag::End, n))], p);
        },
        Ast::While(cond, body) => {
            let c = expr_code(*cond, n + 1, frame)->Ok_0;
            let b = stmt_code(*body, c.next, fname, frame)->Ok_0;
            lemma_expression_inside(*cond, n + 1, frame, p);
            lemma_statement_inside(*body, c.next, fname, frame, p);
            let s0 = seq![Inst::Mark(Label::Local(Tag::Begin, n))];
            let s1 = s0 + c.insts;
            let s2 = s1 + branch_if_zero(Tag::End, n);
            let s3 = s2 + b.insts;
            lemma_count_concat(s0, c.insts, p);
            lemma_count_concat(s1, branch_if_zero(Tag::End, n), p);
            lemma_count_concat(s2, b.insts, p);
            lemma_count_concat(
                s3,
                seq![
                    Inst::Go(Jump::Always, Label::Local(Tag::Begin, n)),
                    Inst::Mark(Label::Local(Tag::End, n)),
                ],
                p,
            );
        },
        Ast::For(init, cond, inc, body) => {
            let i = stmt_code(*init, n + 1, fname, frame)->Ok_0;
            let c = test_code(*cond, i.next, frame, n)->Ok_0;
            let b = stmt_code(*body, c.next, fname, frame)->Ok_0;
            let s = stmt_code(*inc, b.next, fname, frame)->Ok_0;
            lemma_statement_inside(*init, n + 1, fname, frame, p);
            if !(*cond is Nothing) {
                let e = expr_code(*cond, i.next, frame)->Ok_0;
                lemma_expression_inside(*cond, i.next, frame, p);
                lemma_count_concat(e.insts, branch_if_zero(Tag::End, n), p);
            }
            lemma_statement_inside(*body, c.next, fname, frame, p);
            lemma_statement_inside(*inc, b.next, fname, frame, p);
            let s1 = i.insts + seq![Inst::Mark(Label::Local(Tag::Begin, n))];
            let s2 = s1 + c.insts;
            let s3 = s2 + b.insts;
            let s4 = s3 + s.insts;
            lemma_count_concat(i.insts, seq![Inst::Mark(Label::Local(Tag::Begin, n))], p);
            lemma_count_concat(s1, c.insts, p);
            lemma_count_concat(s2, b.insts, p);
            lemma_count_concat(s3, s.insts, p);
            lemma_count_concat(
                s4,
                seq![
                    Inst::Go(Jump::Always, Label::Local(Tag::Begin, n)),
                    Inst::Mark(Label::Local(Tag::End, n)),
                ],
                p,
            );
        },
        Ast::Block(stmts) => {
            lemma_statements_inside(stmts, 0, n, fname, frame, p);
        },
        Ast::Function { .. } => {},
        _ => {
            let v = expr_code(a, n, frame)->Ok_0;
            lemma_expression_inside(a, n, frame, p);
            lemma_count_concat(v.insts, seq![Inst::Pop(Reg::Rax)], p);
            assert(v.insts.push(Inst::Pop(Reg::Rax)) =~= v.insts + seq![Inst::Pop(Reg::Rax)]);
        },
    }
}

/// The code of a sequence of statements neither opens nor closes a routine.
pub proof fn lemma_statements_inside(
    stmts: Seq<Ast>,
    i: nat,
    n: nat,
    fname: Seq<char>,
    frame: nat,
    p: spec_fn(Inst) -> bool,
)
    requires
        stmts_code(stmts, i, n, fname, frame) is Ok,
        at_boundary(p),
    ensures
        count(stmts_code(stmts, i, n, fname, frame)->Ok_0.insts, p) == 0,
    decreases stmts, stmts.len() - i,
{
    reveal(stmt_code);
    reveal(stmts_code);
    lemma_boundary_pieces(p);
    if i < stmts.len() {
        let c = stmt_code(stmts[i as int], n, fname, frame)->Ok_0;
        let rest = stmts_code(stmts, i + 1, c.next, fname, frame)->Ok_0;
        lemma_statement_inside(stmts[i as int], n, fname, frame, p);
        lemma_statements_inside(stmts, i + 1, c.next, fname, frame, p);
        lemma_count_concat(c.insts, rest.insts, p);
    }
}

/// The routine of a function opens once, under the name of the function,
/// and closes once, with the epilogue label of that name: the second
/// instruction is the only one that is the label of a name, and the fourth
/// from the end is the only one that defines an epilogue label.
pub proof fn lemma_routine_shape(f: Ast, n: nat)
    requires
        function_code(f, n) is Ok,
    ensures
        f is Function,
        ({
            let insts = function_code(f, n)->Ok_0.insts;
            &&& insts.len() >= 9
            &&& insts[0] == Inst::Global(f->name)
            &&& insts[1] == Inst::Entry(f->name)
            &&& insts[insts.len() - 4] == Inst::Mark(Label::Return(f->name))
            &&& insts[insts.len() - 1] == Inst::Ret
            &&& count(insts, opens_routine()) == 1
            &&& count(insts, closes_routine()) == 1
        }),
{
    match f {
        Ast::Function { name, body, params, frame } => {
            let copies = spills(params, 0, frame)->Ok_0;
            let b = stmts_code(body, 0, n, name, frame)->Ok_0;
            let head = prologue(name, frame);
            let tail = epilogue(name);
            lemma_spills_plain(params, 0, frame);
            lemma_count_none(copies, opens_routine());
            lemma_count_none(copies, closes_routine());
            lemma_statements_inside(body, 0, n, name, frame, opens_routine());
            lemma_statements_inside(body, 0, n, name, frame, closes_routine());
            assert(count(head, opens_routine()) == 1 && count(head, closes_routine()) == 0) by {
                reveal_with_fuel(count_upto, 6);
            }
            assert(count(tail, opens_routine()) == 0 && count(tail, closes_routine()) == 1) by {
                reveal_with_fuel(count_upto, 5);
            }
            lemma_count_concat(head, copies, opens_routine());
            lemma_count_concat(head + copies, b.insts, opens_routine());
            lemma_count_concat(head + copies + b.insts, tail, opens_routine());
            lemma_count_concat(head, copies, closes_routine());
            lemma_count_concat(head + copies, b.insts, closes_routine());
            lemma_count_concat(head + copies + b.insts, tail, closes_routine());
        },
        _ => {},
    }
}

proof fn lemma_routines(funcs: Seq<Ast>, i: nat, n: nat)
    requires
        functions_code(funcs, i, n) is Ok,
        i <= funcs.len(),
    ensures
        count(functions_code(funcs, i, n)->Ok_0.insts, opens_routine()) == funcs.len() - i,
        count(functions_code(funcs, i, n)->Ok_0.insts, closes_routine()) == funcs.len() - i,
    decreases funcs.len() - i,
{
    reveal(functions_code);
    if i < funcs.len() {
        let c = function_code(funcs[i as int], n)->Ok_0;
        let rest = functions_code(funcs, i + 1, c.next)->Ok_0;
        lemma_routine_shape(funcs[i as int], n);
        lemma_routines(funcs, i + 1, c.next);
        lemma_count_concat(c.insts, rest.insts, opens_routine());
        lemma_count_concat(c.insts, rest.insts, closes_routine());
    } else {
        lemma_count_none(Seq::<Inst>::empty(), opens_routine());
        lemma_count_none(Seq::<Inst>::empty(), closes_routine());
    }
}

/// One routine for each function: the code of a program opens as many
/// routines as the program has functions, and closes as many. Each of them
/// is as [`lemma_routine_shape`] says.
pub proof fn lemma_program_routines(funcs: Seq<Ast>)
    requires
        program_code(funcs) is Ok,
    ensures
        count(program_code(funcs)->Ok_0, opens_routine()) == funcs.len(),
        count(program_code(funcs)->Ok_0, closes_routine()) == funcs.len(),
{
    lemma_routines(funcs, 0, 0);
}

/// The errors that only a tree can cause which the grammar does not give.
pub open spec fn internal(e: CodegenError) -> bool {
    e == CodegenError::Malformed || e == CodegenError::SlotOutOfFrame
}

/// Whether code generation keeps the agreement between parser and
/// generator: it succeeds, or fails for a reason that lies in the source.
pub open spec fn no_internal_error<T>(r: Result<T, CodegenError>) -> bool {
    r matches Err(e) ==> !internal(e)
}

/// Whether every slot that `a` mentions lies in a frame of `frame` bytes.
pub open spec fn in_frame(a: Ast, frame: nat) -> bool {
    forall|o: nat| uses(a, o) ==> o < frame
}

/// Whether every slot that one of `list` mentions lies in a frame of
/// `frame` bytes.
pub open spec fn all_in_frame(list: Seq<Ast>, frame: nat) -> bool {
    forall|i: int| 0 <= i < list.len() ==> in_frame(#[trigger] list[i], frame)
}

proof fn lemma_in_frame_list(list: Seq<Ast>, frame: nat)
    requires
        forall|o: nat| uses_any(list, o) ==> o < frame,
    ensures
        all_in_frame(list, frame),
{
    assert forall|i: int| 0 <= i < list.len() implies in_frame(#[trigger] list[i], frame) by {
        assert forall|o: nat| uses(list[i], o) implies o < frame by {
            assert(uses_any(list, o));
        }
    }
}

/// An expression whose slots lie in the frame has code, unless an
/// assignment in it has no variable on its left, a call in it has too many
/// arguments, or the labels run out.
#[verifier::spinoff_prover]
pub proof fn lemma_expression_generates(a: Ast, n: nat, frame: nat)
    requires
        is_expr(a),
        in_frame(a, frame),
    ensures
        no_internal_error(expr_code(a, n, frame)),
    decreases a, 0nat,
{
    reveal(expr_code);
    reveal(args_code);
    match a {
        Ast::Var(offset) => {
            assert(uses(a, offset));
        },
        Ast::Assign(place, value) => {
            assert forall|o: nat| uses(*value, o) implies o < frame by {
                assert(uses(a, o));
            }
            if let Ast::Var(offset) = *place {
                assert(uses(*place, offset));
                assert(uses(a, offset));
            }
            lemma_expression_generates(*value, n, frame);
        },
        Ast::Binary(op, lhs, rhs) => {
            assert forall|o: nat| uses(*lhs, o) implies o < frame by {
                assert(uses(a, o));
            }
            assert forall|o: nat| uses(*rhs, o) implies o < frame by {
                assert(uses(a, o));
            }
            lemma_expression_generates(*lhs, n, frame);
            if let Ok(l) = expr_code(*lhs, n, frame) {
                lemma_expression_generates(*rhs, l.next, frame);
            }
        },
        Ast::Call(name, args) => {
            assert forall|o: nat| uses_any(args, o) implies o < frame by {
                assert(uses(a, o));
            }
            lemma_in_frame_list(args, frame);
            lemma_arguments_generate(args, 0, n, frame);
        },
        _ => {},
    }
}

/// Arguments whose slots lie in the frame have code, with the same
/// exceptions as [`lemma_expression_generates`].
pub proof fn lemma_arguments_generate(args: Seq<Ast>, i: nat, n: nat, frame: nat)
    requires
        all_expr(args),
        all_in_frame(args, frame),
    ensures
        no_internal_error(args_code(args, i, n, frame)),
    decreases args, args.len() - i,
{
    reveal(expr_code);
    reveal(args_code);
    if i < args.len() {
        lemma_expression_generates(args[i as int], n, frame);
        if let Ok(c) = expr_code(args[i as int], n, frame) {
            lemma_arguments_generate(args, i + 1, c.next, frame);
        }
    }
}

proof fn lemma_clause_generates(a: Ast, n: nat, fname: Seq<char>, frame: nat)
    requires
        is_clause(a),
        in_frame(a, frame),
    ensures
        no_internal_error(stmt_code(a, n, fname, frame)),
{
    reveal(stmt_code);
    if !(a is Nothing) {
        lemma_expression_generates(a, n, frame);
    }
}

/// A statement whose slots lie in the frame has code, with the same
/// exceptions as [`lemma_expression_generates`].
#[verifier::spinoff_prover]
pub proof fn lemma_statement_generates(a: Ast, n: nat, fname: Seq<char>, frame: nat)
    requires
        is_stmt(a) || a is Nothing,
        in_frame(a, frame),
    ensures
        no_internal_error(stmt_code(a, n, fname, frame)),
    decreases a, 0nat,
{
    reveal(stmt_code);
    reveal(stmts_code);
    match a {
        Ast::Nothing => {},
        Ast::Return(value) => {
            assert forall|o: nat| uses(*value, o) implies o < frame by {
                assert(uses(a, o));
            }
            lemma_expression_generates(*value, n, frame);
        },
        Ast::If(cond, cons, alt) => {
            assert forall|o: nat| uses(*cond, o) implies o < frame by {
                assert(uses(a, o));
            }
            assert forall|o: nat| uses(*cons, o) implies o < frame by {
                assert(uses(a, o));
            }
            assert forall|o: nat| uses(*alt, o) implies o < frame by {
                assert(uses(a, o));
            }
            lemma_expression_generates(*cond, n + 1, frame);
            if let Ok(c) = expr_code(*cond, n + 1, frame) {
                lemma_statement_generates(*cons, c.next, fname, frame);
                if let Ok(t) = stmt_code(*cons, c.next, fname, frame) {
                    lemma_statement_generates(*alt, t.next, fname, frame);
                }
            }
        },
        Ast::While(cond, body) => {
            assert forall|o: nat| uses(*cond, o) implies o < frame by {
                assert(uses(a, o));
            }
            assert forall|o: nat| uses(*body, o) implies o < frame by {
                assert(uses(a, o));
            }
            lemma_expression_generates(*cond, n + 1, frame);
            if let Ok(c) = expr_code(*cond, n + 1, frame) {
                lemma_statement_generates(*body, c.next, fname, frame);
            }
        },
        Ast::For(init, cond, inc, body) => {
            assert forall|o: nat| uses(*init, o) implies o < frame by {
                assert(uses(a, o));
            }
            assert forall|o: nat| uses(*cond, o) implies o < frame by {
                assert(uses(a, o));
            }
            assert forall|o: nat| uses(*inc, o) implies o < frame by {
                assert(uses(a, o));
            }
            assert forall|o: nat| uses(*body, o) implies o < frame by {
                assert(uses(a, o));
            }
            lemma_clause_generates(*init, n + 1, fname, frame);
            if let Ok(i) = stmt_code(*init, n + 1, fname, frame) {
                if !(*cond is Nothing) {
                    lemma_expression_generates(*cond, i.next, frame);
                }
                if let Ok(c) = test_code(*cond, i.next, frame, n) {
                    lemma_statement_generates(*body, c.next, fname, frame);
                    if let Ok(b) = stmt_code(*body, c.next, fname, frame) {
                        lemma_clause_generates(*inc, b.next, fname, frame);
                    }
                }
            }
        },
        Ast::Block(stmts) => {
            assert forall|o: nat| uses_any(stmts, o) implies o < frame by {
                assert(uses(a, o));
            }
            lemma_in_frame_list(stmts, frame);
            lemma_statements_generate(stmts, 0, n, fname, frame);
        },
        Ast::Function { .. } => {},
        _ => {
            lemma_expression_generates(a, n, frame);
        },
    }
}

/// Statements whose slots lie in the frame have code, with the same
/// exceptions as [`lemma_expression_generates`].
pub proof fn lemma_statements_generate(
    stmts: Seq<Ast>,
    i: nat,
    n: nat,
    fname: Seq<char>,
    frame: nat,
)
    requires
        all_stmt(stmts),
        all_in_frame(stmts, frame),
    ensures
        no_internal_error(stmts_code(stmts, i, n, fname, frame)),
    decreases stmts, stmts.len() - i,
{
    reveal(stmt_code);
    reveal(stmts_code);
    if i < stmts.len() {
        lemma_statement_generates(stmts[i as int], n, fname, frame);
        if let Ok(c) = stmt_code(stmts[i as int], n, fname, frame) {
            lemma_statements_generate(stmts, i + 1, c.next, fname, frame);
        }
    }
}

proof fn lemma_spills_generate(params: Seq<Ast>, i: nat, frame: nat)
    requires
        all_var(params),
        all_in_frame(params, frame),
    ensures
        no_internal_error(spills(params, i, frame)),
    decreases params.len() - i,
{
    reveal(spills);
    if i < params.len() {
        let param = params[i as int];
        assert(param is Var);
        assert(uses(param, param->Var_0));
        lemma_spills_generate(params, i + 1, frame);
    }
}

/// A function of the right shape whose slots lie in its frame has a
/// routine, unless it has too many parameters or its body has no code.
pub proof fn lemma_function_generates(f: Ast, n: nat)
    requires
        is_function(f),
        in_frame(f, f->frame),
    ensures
        no_internal_error(function_code(f, n)),
{
    match f {
        Ast::Function { name, body, params, frame } => {
            assert forall|o: nat| uses_any(params, o) implies o < frame by {
                assert(uses(f, o));
            }
            assert forall|o: nat| uses_any(body, o) implies o < frame by {
                assert(uses(f, o));
            }
            lemma_in_frame_list(params, frame);
            lemma_in_frame_list(body, frame);
            lemma_spills_generate(params, 0, frame);
            lemma_statements_generate(body, 0, n, name, frame);
        },
        _ => {},
    }
}

proof fn lemma_functions_generate(funcs: Seq<Ast>, i: nat, n: nat)
    requires
        forall|j: int|
            0 <= j < funcs.len() ==> is_function(#[trigger] funcs[j]) && in_frame(
                funcs[j],
                funcs[j]->frame,
            ),
    ensures
        no_internal_error(functions_code(funcs, i, n)),
    decreases funcs.len() - i,
{
    reveal(functions_code);
    if i < funcs.len() {
        lemma_function_generates(funcs[i as int], n);
        if let Ok(c) = function_code(funcs[i as int], n) {
            lemma_functions_generate(funcs, i + 1, c.next);
        }
    }
}

/// The parser and the generator agree: a program that the parser accepted
/// never has the generator meet a node where none of its kind may stand,
/// nor a variable outside its frame. Generating its code fails only where
/// an assignment has no variable on its left, where a call or a function
/// has more than six arguments or parameters, or where the labels run out.
pub proof fn lemma_parsed_program_generates(toks: Seq<TokenView>)
    requires
        program_spec(toks) is Ok,
    ensures
        no_internal_error(program_code(program_spec(toks)->Ok_0)),
{
    let funcs = program_spec(toks)->Ok_0;
    assert forall|j: int| 0 <= j < funcs.len() implies is_function(#[trigger] funcs[j]) && in_frame(
        funcs[j],
        funcs[j]->frame,
    ) by {
        assert forall|o: nat| uses(funcs[j], o) implies o < funcs[j]->frame by {
            lemma_program_frames(toks, j, o);
        }
        lemma_program_frames(toks, j, 0);
    }
    lemma_functions_generate(funcs, 0, 0);
}

/// A `for` loop without clauses is an endless loop: its code is the code
/// of its body between the label at its start and the jump back to that
/// label. No test stands in it, so that only the body can leave the loop.
pub proof fn lemma_for_without_clauses(body: Ast, n: nat, fname: Seq<char>, frame: nat)
    requires
        n <= max_label(),
        stmt_code(body, n + 1, fname, frame) is Ok,
    ensures
        stmt_code(
            Ast::For(
                Box::new(Ast::Nothing),
                Box::new(Ast::Nothing),
                Box::new(Ast::Nothing),
                Box::new(body),
            ),
            n,
            fname,
            frame,
        ) == Ok::<Code, CodegenError>(
            Code {
                insts: seq![Inst::Mark(Label::Local(Tag::Begin, n))] + stmt_code(
                    body,
                    n + 1,
                    fname,
                    frame,
                )->Ok_0.insts + seq![
                    Inst::Go(Jump::Always, Label::Local(Tag::Begin, n)),
                    Inst::Mark(Label::Local(Tag::End, n)),
                ],
                next: stmt_code(body, n + 1, fname, frame)->Ok_0.next,
            },
        ),
{
    reveal(stmt_code);
    let b = stmt_code(body, n + 1, fname, frame)->Ok_0;
    let nothing = Seq::<Inst>::empty();
    let start = seq![Inst::Mark(Label::Local(Tag::Begin, n))];
    let back = seq![
        Inst::Go(Jump::Always, Label::Local(Tag::Begin, n)),
        Inst::Mark(Label::Local(Tag::End, n)),
    ];
    assert(stmt_code(Ast::Nothing, n + 1, fname, frame) == Ok::<Code, CodegenError>(
        Code { insts: nothing, next: n + 1 },
    ));
    assert(stmt_code(Ast::Nothing, b.next, fname, frame) == Ok::<Code, CodegenError>(
        Code { insts: nothing, next: b.next },
    ));
    assert(nothing + start + nothing + b.insts + nothing + back =~= start + b.insts + back);
}

} // verus!
