//! The code generator: syntax trees to assembly text.

use crate::code::{
    address_code, after, aligned_call, arg_reg, args_code, branch_if_zero, epilogue, expr_code,
    function_code, functions_code, max_label, operation, pops, program_code, prologue, spill,
    spills, stmt_code, stmts_code, test_code, Code, CodegenError,
};
use crate::emit::{render, Inst, Jump, Listing, Reg, Tag, Test};
use crate::grammar::{Ast, BinOp};
use crate::parse::{lemma_tree_children, tree, trees, Node};
use std::collections::VecDeque;
use vstd::prelude::*;

verus! {

/// Instructions and a label counter, as the code of a tree gives them,
/// against what was written and the state of the counter.
pub open spec fn generated(
    spec: Result<Code, CodegenError>,
    r: Result<(), CodegenError>,
    before: Listing,
    now: Listing,
    count: u32,
) -> bool {
    match spec {
        Ok(c) => {
            &&& r is Ok
            &&& now.settled()
            &&& now.insts() == before.insts() + c.insts
            &&& count == c.next
        },
        Err(e) => r is Err && r->Err_0 == e,
    }
}

/// The register that carries the argument of index `i`.
pub fn arg_register(i: usize) -> (r: Reg)
    requires
        i < 6,
    ensures
        r == arg_reg(i as int),
{
    if i == 0 {
        Reg::Rdi
    } else if i == 1 {
        Reg::Rsi
    } else if i == 2 {
        Reg::Rdx
    } else if i == 3 {
        Reg::Rcx
    } else if i == 4 {
        Reg::R8
    } else {
        Reg::R9
    }
}

fn push(out: &mut Listing, r: Reg)
    requires
        old(out).settled(),
    ensures
        final(out).settled(),
        final(out).insts() == old(out).insts().push(Inst::Push(r)),
{
    out.with_reg(Ghost(Inst::Push(r)), "  push ", r);
}

fn pop(out: &mut Listing, r: Reg)
    requires
        old(out).settled(),
    ensures
        final(out).settled(),
        final(out).insts() == old(out).insts().push(Inst::Pop(r)),
{
    out.with_reg(Ghost(Inst::Pop(r)), "  pop ", r);
}

/// Writes the code that pushes the address of the variable `node`.
pub fn gen_lval(node: &Node, out: &mut Listing, stack_size: u32) -> (r: Result<(), CodegenError>)
    requires
        old(out).settled(),
    ensures
        match address_code(node@, stack_size as nat) {
            Ok(insts) => r is Ok && final(out).settled() && final(out).insts() == old(out).insts()
                + insts,
            Err(e) => r is Err && r->Err_0 == e,
        },
{
    match node {
        Node::ND_LVAR { offset } => {
            if *offset >= stack_size {
                return Err(CodegenError::SlotOutOfFrame);
            }
            out.address(stack_size - *offset);
            push(out, Reg::Rax);
            assert(out.insts() =~= old(out).insts() + address_code(node@, stack_size as nat)->Ok_0);
            Ok(())
        },
        _ => Err(CodegenError::NotAnLvalue),
    }
}

/// Writes the code that applies `op` to `rax` and `rdi` and pushes the
/// result.
fn operate(out: &mut Listing, op: BinOp)
    requires
        old(out).settled(),
    ensures
        final(out).settled(),
        final(out).insts() == old(out).insts() + operation(op),
{
    match op {
        BinOp::Add => out.fixed(Ghost(Inst::Add), "  add rax, rdi"),
        BinOp::Sub => out.fixed(Ghost(Inst::Sub), "  sub rax, rdi"),
        BinOp::Mul => out.fixed(Ghost(Inst::Mul), "  imul rax, rdi"),
        BinOp::Div => {
            out.fixed(Ghost(Inst::SignExtend), "  cqo");
            out.fixed(Ghost(Inst::Div), "  idiv rdi");
        },
        BinOp::Eq => {
            out.fixed(Ghost(Inst::Compare), "  cmp rax, rdi");
            out.fixed(Ghost(Inst::Flag(Test::Equal)), "  sete al");
            out.fixed(Ghost(Inst::Widen), "  movzb rax, al");
        },
        BinOp::Ne => {
            out.fixed(Ghost(Inst::Compare), "  cmp rax, rdi");
            out.fixed(Ghost(Inst::Flag(Test::NotEqual)), "  setne al");
            out.fixed(Ghost(Inst::Widen), "  movzb rax, al");
        },
        BinOp::Lt => {
            out.fixed(Ghost(Inst::Compare), "  cmp rax, rdi");
            out.fixed(Ghost(Inst::Flag(Test::Less)), "  setl al");
            out.fixed(Ghost(Inst::Widen), "  movzb rax, al");
        },
        BinOp::Le => {
            out.fixed(Ghost(Inst::Compare), "  cmp rax, rdi");
            out.fixed(Ghost(Inst::Flag(Test::LessOrEqual)), "  setle al");
            out.fixed(Ghost(Inst::Widen), "  movzb rax, al");
        },
    }
    push(out, Reg::Rax);
    assert(out.insts() =~= old(out).insts() + operation(op));
}

/// Writes the code that calls `name` with an aligned stack and pushes the
/// result. The labels carry the number `sc`.
fn call_aligned(out: &mut Listing, name: &String, sc: u32)
    requires
        old(out).settled(),
    ensures
        final(out).settled(),
        final(out).insts() == old(out).insts() + aligned_call(name@, sc as nat),
{
    out.mov(Reg::Rax, Reg::Rsp);
    out.fixed(Ghost(Inst::LowBits), "  and rax, 15");
    out.go(Jump::IfNotZero, Tag::Call, sc);
    out.fixed(Ghost(Inst::Zero), "  mov rax, 0");
    call(out, name);
    out.go(Jump::Always, Tag::CallEnd, sc);
    out.mark(Tag::Call, sc);
    out.with_number(Ghost(Inst::Grow(8)), "  sub rsp, ", 8);
    out.fixed(Ghost(Inst::Zero), "  mov rax, 0");
    call(out, name);
    out.with_number(Ghost(Inst::Shrink(8)), "  add rsp, ", 8);
    out.mark(Tag::CallEnd, sc);
    push(out, Reg::Rax);
    assert(out.insts() =~= old(out).insts() + aligned_call(name@, sc as nat));
}

fn call(out: &mut Listing, name: &String)
    requires
        old(out).settled(),
    ensures
        final(out).settled(),
        final(out).insts() == old(out).insts().push(Inst::Call(name@)),
{
    out.with_name(Ghost(Inst::Call(name@)), "  call ", name.as_str());
}

/// Writes the code that pops `count` arguments into their registers, the
/// last one first.
fn pop_args(out: &mut Listing, count: usize)
    requires
        old(out).settled(),
        count <= 6,
    ensures
        final(out).settled(),
        final(out).insts() == old(out).insts() + pops(count as nat),
{
    let mut i: usize = count;
    while i > 0
        invariant
            i <= count <= 6,
            out.settled(),
            out.insts() == old(out).insts() + pops(count as nat).subrange(0, count - i),
        decreases i,
    {
        i -= 1;
        pop(out, arg_register(i));
        assert(out.insts() =~= old(out).insts() + pops(count as nat).subrange(0, count - i));
    }
    assert(pops(count as nat).subrange(0, count as int) =~= pops(count as nat));
}

/// Writes the code that pops a condition's value and jumps to the label
/// `tag`, `sc` if it is zero.
fn branch(out: &mut Listing, tag: Tag, sc: u32)
    requires
        old(out).settled(),
    ensures
        final(out).settled(),
        final(out).insts() == old(out).insts() + branch_if_zero(tag, sc as nat),
{
    pop(out, Reg::Rax);
    out.fixed(Ghost(Inst::TestZero), "  cmp rax, 0");
    out.go(Jump::IfEqual, tag, sc);
    assert(out.insts() =~= old(out).insts() + branch_if_zero(tag, sc as nat));
}

/// Takes the next number from the label counter.
fn fresh(count: &mut u32) -> (r: Result<u32, CodegenError>)
    ensures
        match r {
            Ok(sc) => sc == *old(count) && *old(count) <= max_label() && *final(count) == sc + 1,
            Err(e) => e == CodegenError::TooManyLabels && *old(count) > max_label(),
        },
{
    let sc: u32 = *count;
    if sc == u32::MAX {
        return Err(CodegenError::TooManyLabels);
    }
    *count = sc + 1;
    Ok(sc)
}

/// Writes the code of the expression `node`, which pushes its value.
/// `count` is the label counter; `stack_size` is the frame size of the
/// function that `node` stands in.
#[verifier::spinoff_prover]
pub fn gen_expr(node: &Node, out: &mut Listing, count: &mut u32, stack_size: u32) -> (r: Result<
    (),
    CodegenError,
>)
    requires
        old(out).settled(),
    ensures
        generated(
            expr_code(node@, *old(count) as nat, stack_size as nat),
            r,
            *old(out),
            *final(out),
            *final(count),
        ),
    decreases node, 1nat,
{
    reveal(expr_code);
    match node {
        Node::ND_NUM(val) => {
            out.with_number(Ghost(Inst::PushNum(*val as nat)), "  push ", *val);
            assert(out.insts() =~= old(out).insts() + seq![Inst::PushNum(*val as nat)]);
            Ok(())
        },
        Node::ND_LVAR { .. } => {
            gen_lval(node, out, stack_size)?;
            pop(out, Reg::Rax);
            out.fixed(Ghost(Inst::Load), "  mov rax, [rax]");
            push(out, Reg::Rax);
            assert(out.insts() =~= old(out).insts() + expr_code(
                node@,
                *old(count) as nat,
                stack_size as nat,
            )->Ok_0.insts);
            Ok(())
        },
        Node::ND_ASSIGN { lhs, rhs } => {
            gen_lval(lhs, out, stack_size)?;
            gen_expr(rhs, out, count, stack_size)?;
            pop(out, Reg::Rdi);
            pop(out, Reg::Rax);
            out.fixed(Ghost(Inst::Store), "  mov [rax], rdi");
            push(out, Reg::Rdi);
            assert(out.insts() =~= old(out).insts() + expr_code(
                node@,
                *old(count) as nat,
                stack_size as nat,
            )->Ok_0.insts);
            Ok(())
        },
        Node::ND_ADD { lhs, rhs } => gen_bin_op(
            Ghost(*node),
            lhs,
            rhs,
            BinOp::Add,
            out,
            count,
            stack_size,
        ),
        Node::ND_SUB { lhs, rhs } => gen_bin_op(
            Ghost(*node),
            lhs,
            rhs,
            BinOp::Sub,
            out,
            count,
            stack_size,
        ),
        Node::ND_MUL { lhs, rhs } => gen_bin_op(
            Ghost(*node),
            lhs,
            rhs,
            BinOp::Mul,
            out,
            count,
            stack_size,
        ),
        Node::ND_DIV { lhs, rhs } => gen_bin_op(
            Ghost(*node),
            lhs,
            rhs,
            BinOp::Div,
            out,
            count,
            stack_size,
        ),
        Node::ND_EQ { lhs, rhs } => gen_bin_op(
            Ghost(*node),
            lhs,
            rhs,
            BinOp::Eq,
            out,
            count,
            stack_size,
        ),
        Node::ND_NE { lhs, rhs } => gen_bin_op(
            Ghost(*node),
            lhs,
            rhs,
            BinOp::Ne,
            out,
            count,
            stack_size,
        ),
        Node::ND_LT { lhs, rhs } => gen_bin_op(
            Ghost(*node),
            lhs,
            rhs,
            BinOp::Lt,
            out,
            count,
            stack_size,
        ),
        Node::ND_LE { lhs, rhs } => gen_bin_op(
            Ghost(*node),
            lhs,
            rhs,
            BinOp::Le,
            out,
            count,
            stack_size,
        ),
        Node::ND_FUNCALL { name, args } => {
            proof {
                lemma_tree_children(*node);
            }
            gen_args(args, out, count, stack_size)?;
            if args.len() > 6 {
                return Err(CodegenError::TooManyArguments);
            }
            let sc: u32 = fresh(count)?;
            pop_args(out, args.len());
            call_aligned(out, name, sc);
            assert(out.insts() =~= old(out).insts() + expr_code(
                node@,
                *old(count) as nat,
                stack_size as nat,
            )->Ok_0.insts);
            Ok(())
        },
        _ => Err(CodegenError::Malformed),
    }
}

/// Writes the code of the binary operation `op` on `lhs` and `rhs`, the
/// operands of the node `parent`: the code of both operands, then that of
/// the operation itself.
#[verifier::spinoff_prover]
fn gen_bin_op(
    Ghost(parent): Ghost<Node>,
    lhs: &Node,
    rhs: &Node,
    op: BinOp,
    out: &mut Listing,
    count: &mut u32,
    stack_size: u32,
) -> (r: Result<(), CodegenError>)
    requires
        old(out).settled(),
        decreases_to!(parent => *lhs),
        decreases_to!(parent => *rhs),
    ensures
        generated(
            expr_code(
                Ast::Binary(op, Box::new(lhs@), Box::new(rhs@)),
                *old(count) as nat,
                stack_size as nat,
            ),
            r,
            *old(out),
            *final(out),
            *final(count),
        ),
    decreases parent, 0nat,
{
    reveal(expr_code);
    gen_expr(lhs, out, count, stack_size)?;
    gen_expr(rhs, out, count, stack_size)?;
    pop(out, Reg::Rdi);
    pop(out, Reg::Rax);
    operate(out, op);
    assert(out.insts() =~= old(out).insts() + expr_code(
        Ast::Binary(op, Box::new(lhs@), Box::new(rhs@)),
        *old(count) as nat,
        stack_size as nat,
    )->Ok_0.insts);
    Ok(())
}

/// Writes the code of the arguments of a call, from the first to the last.
#[verifier::spinoff_prover]
pub fn gen_args(args: &Vec<Node>, out: &mut Listing, count: &mut u32, stack_size: u32) -> (r:
    Result<(), CodegenError>)
    requires
        old(out).settled(),
    ensures
        generated(
            args_code(trees(args@), 0, *old(count) as nat, stack_size as nat),
            r,
            *old(out),
            *final(out),
            *final(count),
        ),
    decreases args, 0nat,
{
    let ghost goal = args_code(trees(args@), 0, *count as nat, stack_size as nat);
    let ghost start = out.insts();
    let mut i: usize = 0;
    while i < args.len()
        invariant
            i <= args.len(),
            out.settled(),
            start == old(out).insts(),
            goal == args_code(trees(args@), 0, *old(count) as nat, stack_size as nat),
            after(start, goal) == after(
                out.insts(),
                args_code(trees(args@), i as nat, *count as nat, stack_size as nat),
            ),
        decreases args.len() - i,
    {
        reveal(args_code);
        reveal(expr_code);
        let ghost before = out.insts();
        let ghost rest = args_code(trees(args@), i as nat, *count as nat, stack_size as nat);
        gen_expr(&args[i], out, count, stack_size)?;
        i += 1;
        proof {
            let next = args_code(trees(args@), i as nat, *count as nat, stack_size as nat);
            if let Ok(more) = next {
                assert(rest->Ok_0.insts =~= (out.insts().skip(before.len() as int)) + more.insts);
                assert(before + rest->Ok_0.insts =~= out.insts() + more.insts);
            }
        }
    }
    proof {
        reveal(args_code);
        assert(out.insts() + Seq::<Inst>::empty() =~= out.insts());
    }
    Ok(())
}

/// Writes the test of a `for` loop whose labels carry the number `sc`:
/// nothing where the condition was left out.
pub fn gen_test(cond: &Node, out: &mut Listing, count: &mut u32, stack_size: u32, sc: u32) -> (r:
    Result<(), CodegenError>)
    requires
        old(out).settled(),
    ensures
        generated(
            test_code(cond@, *old(count) as nat, stack_size as nat, sc as nat),
            r,
            *old(out),
            *final(out),
            *final(count),
        ),
{
    match cond {
        Node::ND_NOTHING => {
            assert(out.insts() =~= old(out).insts() + Seq::<Inst>::empty());
            Ok(())
        },
        _ => {
            gen_expr(cond, out, count, stack_size)?;
            branch(out, Tag::End, sc);
            assert(out.insts() =~= old(out).insts() + test_code(
                cond@,
                *old(count) as nat,
                stack_size as nat,
                sc as nat,
            )->Ok_0.insts);
            Ok(())
        },
    }
}

/// Writes the code of the statement `node` of the function `fname`, which
/// leaves the stack as it found it. `count` is the label counter;
/// `stack_size` is the frame size of the function.
#[verifier::spinoff_prover]
pub fn gen(node: &Node, out: &mut Listing, count: &mut u32, fname: &String, stack_size: u32) -> (r:
    Result<(), CodegenError>)
    requires
        old(out).settled(),
    ensures
        generated(
            stmt_code(node@, *old(count) as nat, fname@, stack_size as nat),
            r,
            *old(out),
            *final(out),
            *final(count),
        ),
    decreases node, 1nat,
{
    reveal(stmt_code);
    reveal(stmts_code);
    let ghost goal = stmt_code(node@, *count as nat, fname@, stack_size as nat);
    match node {
        Node::ND_NOTHING => {
            assert(out.insts() =~= old(out).insts() + Seq::<Inst>::empty());
            Ok(())
        },
        Node::ND_RETURN { ret } => {
            gen_expr(ret, out, count, stack_size)?;
            pop(out, Reg::Rax);
            out.go_return(fname.as_str());
            assert(out.insts() =~= old(out).insts() + goal->Ok_0.insts);
            Ok(())
        },
        Node::ND_IF { cond, cons, alt } => gen_if(
            Ghost(*node),
            cond,
            cons,
            alt,
            out,
            count,
            fname,
            stack_size,
        ),
        Node::ND_WHILE { cond, body } => gen_while(
            Ghost(*node),
            cond,
            body,
            out,
            count,
            fname,
            stack_size,
        ),
        Node::ND_FOR { init, cond, inc, body } => gen_for(
            Ghost(*node),
            init,
            cond,
            inc,
            body,
            out,
            count,
            fname,
            stack_size,
        ),
        Node::ND_BLOCK { stmts } => {
            proof {
                lemma_tree_children(*node);
            }
            gen_stmts(stmts, out, count, fname, stack_size)
        },
        Node::ND_FUNCTION { .. } => {
            proof {
                lemma_tree_children(*node);
            }
            Err(CodegenError::Malformed)
        },
        _ => {
            proof {
                lemma_tree_children(*node);
            }
            gen_expr(node, out, count, stack_size)?;
            pop(out, Reg::Rax);
            Ok(())
        },
    }
}

/// Writes the code of an `if`, the statement `parent`: the condition is
/// evaluated and popped; where it is zero, control goes to the alternative,
/// and else through the consequent and past the alternative.
#[verifier::spinoff_prover]
fn gen_if(
    Ghost(parent): Ghost<Node>,
    cond: &Node,
    cons: &Node,
    alt: &Node,
    out: &mut Listing,
    count: &mut u32,
    fname: &String,
    stack_size: u32,
) -> (r: Result<(), CodegenError>)
    requires
        old(out).settled(),
        decreases_to!(parent => *cond),
        decreases_to!(parent => *cons),
        decreases_to!(parent => *alt),
    ensures
        generated(
            stmt_code(
                Ast::If(Box::new(cond@), Box::new(cons@), Box::new(alt@)),
                *old(count) as nat,
                fname@,
                stack_size as nat,
            ),
            r,
            *old(out),
            *final(out),
            *final(count),
        ),
    decreases parent, 0nat,
{
    reveal(stmt_code);
    let ghost goal = stmt_code(
        Ast::If(Box::new(cond@), Box::new(cons@), Box::new(alt@)),
        *count as nat,
        fname@,
        stack_size as nat,
    );
    let sc: u32 = fresh(count)?;
    gen_expr(cond, out, count, stack_size)?;
    branch(out, Tag::Else, sc);
    gen(cons, out, count, fname, stack_size)?;
    out.go(Jump::Always, Tag::End, sc);
    out.mark(Tag::Else, sc);
    gen(alt, out, count, fname, stack_size)?;
    out.mark(Tag::End, sc);
    assert(out.insts() =~= old(out).insts() + goal->Ok_0.insts);
    Ok(())
}

/// Writes the code of a `while` loop, the statement `parent`: the
/// condition is tested before every round, and a zero ends the loop.
#[verifier::spinoff_prover]
fn gen_while(
    Ghost(parent): Ghost<Node>,
    cond: &Node,
    body: &Node,
    out: &mut Listing,
    count: &mut u32,
    fname: &String,
    stack_size: u32,
) -> (r: Result<(), CodegenError>)
    requires
        old(out).settled(),
        decreases_to!(parent => *cond),
        decreases_to!(parent => *body),
    ensures
        generated(
            stmt_code(
                Ast::While(Box::new(cond@), Box::new(body@)),
                *old(count) as nat,
                fname@,
                stack_size as nat,
            ),
            r,
            *old(out),
            *final(out),
            *final(count),
        ),
    decreases parent, 0nat,
{
    reveal(stmt_code);
    let ghost goal = stmt_code(
        Ast::While(Box::new(cond@), Box::new(body@)),
        *count as nat,
        fname@,
        stack_size as nat,
    );
    let sc: u32 = fresh(count)?;
    out.mark(Tag::Begin, sc);
    gen_expr(cond, out, count, stack_size)?;
    branch(out, Tag::End, sc);
    gen(body, out, count, fname, stack_size)?;
    out.go(Jump::Always, Tag::Begin, sc);
    out.mark(Tag::End, sc);
    assert(out.insts() =~= old(out).insts() + goal->Ok_0.insts);
    Ok(())
}

/// Writes the code of a `for` loop, the statement `parent`: the
/// initializer, then round after round the test, the body and the
/// increment. A clause that was left out has no code; without a condition
/// the loop has no test.
#[verifier::spinoff_prover]
fn gen_for(
    Ghost(parent): Ghost<Node>,
    init: &Node,
    cond: &Node,
    inc: &Node,
    body: &Node,
    out: &mut Listing,
    count: &mut u32,
    fname: &String,
    stack_size: u32,
) -> (r: Result<(), CodegenError>)
    requires
        old(out).settled(),
        decreases_to!(parent => *init),
        decreases_to!(parent => *inc),
        decreases_to!(parent => *body),
    ensures
        generated(
            stmt_code(
                Ast::For(Box::new(init@), Box::new(cond@), Box::new(inc@), Box::new(body@)),
                *old(count) as nat,
                fname@,
                stack_size as nat,
            ),
            r,
            *old(out),
            *final(out),
            *final(count),
        ),
    decreases parent, 0nat,
{
    reveal(stmt_code);
    let ghost goal = stmt_code(
        Ast::For(Box::new(init@), Box::new(cond@), Box::new(inc@), Box::new(body@)),
        *count as nat,
        fname@,
        stack_size as nat,
    );
    let sc: u32 = fresh(count)?;
    gen(init, out, count, fname, stack_size)?;
    out.mark(Tag::Begin, sc);
    gen_test(cond, out, count, stack_size, sc)?;
    gen(body, out, count, fname, stack_size)?;
    gen(inc, out, count, fname, stack_size)?;
    out.go(Jump::Always, Tag::Begin, sc);
    out.mark(Tag::End, sc);
    assert(out.insts() =~= old(out).insts() + goal->Ok_0.insts);
    Ok(())
}

/// Writes the code of the statements `stmts` of the function `fname`, in
/// order.
#[verifier::spinoff_prover]
pub fn gen_stmts(
    stmts: &Vec<Node>,
    out: &mut Listing,
    count: &mut u32,
    fname: &String,
    stack_size: u32,
) -> (r: Result<(), CodegenError>)
    requires
        old(out).settled(),
    ensures
        generated(
            stmts_code(trees(stmts@), 0, *old(count) as nat, fname@, stack_size as nat),
            r,
            *old(out),
            *final(out),
            *final(count),
        ),
    decreases stmts, 0nat,
{
    let ghost goal = stmts_code(trees(stmts@), 0, *count as nat, fname@, stack_size as nat);
    let ghost start = out.insts();
    let mut i: usize = 0;
    while i < stmts.len()
        invariant
            i <= stmts.len(),
            out.settled(),
            start == old(out).insts(),
            goal == stmts_code(trees(stmts@), 0, *old(count) as nat, fname@, stack_size as nat),
            after(start, goal) == after(
                out.insts(),
                stmts_code(trees(stmts@), i as nat, *count as nat, fname@, stack_size as nat),
            ),
        decreases stmts.len() - i,
    {
        reveal(stmts_code);
        reveal(stmt_code);
        let ghost before = out.insts();
        let ghost rest = stmts_code(
            trees(stmts@),
            i as nat,
            *count as nat,
            fname@,
            stack_size as nat,
        );
        gen(&stmts[i], out, count, fname, stack_size)?;
        i += 1;
        proof {
            let next = stmts_code(
                trees(stmts@),
                i as nat,
                *count as nat,
                fname@,
                stack_size as nat,
            );
            if let Ok(more) = next {
                assert(before + rest->Ok_0.insts =~= out.insts() + more.insts);
            }
        }
    }
    proof {
        reveal(stmts_code);
        assert(out.insts() + Seq::<Inst>::empty() =~= out.insts());
    }
    Ok(())
}

/// The instructions `done` followed by `more`, or the error of `more`.
pub open spec fn along(done: Seq<Inst>, more: Result<Seq<Inst>, CodegenError>) -> Result<
    Seq<Inst>,
    CodegenError,
> {
    match more {
        Ok(insts) => Ok(done + insts),
        Err(e) => Err(e),
    }
}

/// Writes the code that copies the parameters of a function from their
/// registers into their slots.
pub fn gen_params(parameters: &VecDeque<Node>, out: &mut Listing, stack_size: u32) -> (r: Result<
    (),
    CodegenError,
>)
    requires
        old(out).settled(),
    ensures
        match spills(trees(parameters@), 0, stack_size as nat) {
            Ok(insts) => r is Ok && final(out).settled() && final(out).insts() == old(out).insts()
                + insts,
            Err(e) => r is Err && r->Err_0 == e,
        },
{
    let ghost goal = spills(trees(parameters@), 0, stack_size as nat);
    let ghost start = out.insts();
    let mut i: usize = 0;
    while i < parameters.len()
        invariant
            i <= parameters.len(),
            out.settled(),
            start == old(out).insts(),
            goal == spills(trees(parameters@), 0, stack_size as nat),
            along(start, goal) == along(
                out.insts(),
                spills(trees(parameters@), i as nat, stack_size as nat),
            ),
        decreases parameters.len() - i,
    {
        reveal(spills);
        let ghost before = out.insts();
        let ghost rest = spills(trees(parameters@), i as nat, stack_size as nat);
        match &parameters[i] {
            Node::ND_LVAR { offset } => {
                if *offset >= stack_size {
                    return Err(CodegenError::SlotOutOfFrame);
                }
                if i >= 6 {
                    return Err(CodegenError::TooManyParameters);
                }
                out.spill(stack_size - *offset, arg_register(i));
            },
            _ => {
                return Err(CodegenError::Malformed);
            },
        }
        i += 1;
        proof {
            let next = spills(trees(parameters@), i as nat, stack_size as nat);
            if let Ok(more) = next {
                assert(before + rest->Ok_0 =~= out.insts() + more);
            }
        }
    }
    proof {
        reveal(spills);
        assert(out.insts() + Seq::<Inst>::empty() =~= out.insts());
    }
    Ok(())
}

/// Writes the routine of the function `f`: its name as a global label, the
/// prologue, the parameters copied into their slots, the body, and the
/// epilogue under the label that `return` jumps to.
pub fn gen_function(f: &Node, out: &mut Listing, count: &mut u32) -> (r: Result<(), CodegenError>)
    requires
        old(out).settled(),
    ensures
        generated(function_code(f@, *old(count) as nat), r, *old(out), *final(out), *final(count)),
{
    proof {
        lemma_tree_children(*f);
    }
    let ghost goal = function_code(f@, *count as nat);
    match f {
        Node::ND_FUNCTION { name, body, parameters, stack_size } => {
            out.with_name(Ghost(Inst::Global(name@)), ".global ", name.as_str());
            out.entry(name.as_str());
            push(out, Reg::Rbp);
            out.mov(Reg::Rbp, Reg::Rsp);
            out.with_number(Ghost(Inst::Grow(*stack_size as nat)), "  sub rsp, ", *stack_size);
            assert(out.insts() =~= old(out).insts() + prologue(name@, *stack_size as nat));
            gen_params(parameters, out, *stack_size)?;
            gen_stmts(body, out, count, name, *stack_size)?;
            out.mark_return(name.as_str());
            out.mov(Reg::Rsp, Reg::Rbp);
            pop(out, Reg::Rbp);
            out.fixed(Ghost(Inst::Ret), "  ret");
            assert(out.insts() =~= old(out).insts() + goal->Ok_0.insts);
            Ok(())
        },
        _ => Err(CodegenError::Malformed),
    }
}

/// Generates the assembly text of a program: one routine for each function
/// of `funcs`, in order, each under its own name as a global label.
///
/// The numbers in the labels come from one counter that starts at zero and
/// runs through all the functions. Nothing is returned for a program of
/// which some part cannot be generated.
pub fn codegen(funcs: Vec<Node>) -> (r: Result<String, CodegenError>)
    ensures
        match program_code(trees(funcs@)) {
            Ok(insts) => r is Ok && r->Ok_0@ == render(insts),
            Err(e) => r is Err && r->Err_0 == e,
        },
{
    let mut out = Listing::new();
    let mut count: u32 = 0;
    let ghost goal = functions_code(trees(funcs@), 0, 0);
    let mut i: usize = 0;
    while i < funcs.len()
        invariant
            i <= funcs.len(),
            out.settled(),
            goal == functions_code(trees(funcs@), 0, 0),
            after(Seq::empty(), goal) == after(
                out.insts(),
                functions_code(trees(funcs@), i as nat, count as nat),
            ),
        decreases funcs.len() - i,
    {
        reveal(functions_code);
        let ghost before = out.insts();
        let ghost rest = functions_code(trees(funcs@), i as nat, count as nat);
        gen_function(&funcs[i], &mut out, &mut count)?;
        i += 1;
        proof {
            let next = functions_code(trees(funcs@), i as nat, count as nat);
            if let Ok(more) = next {
                assert(before + rest->Ok_0.insts =~= out.insts() + more.insts);
            }
        }
    }
    proof {
        reveal(functions_code);
        assert(out.insts() + Seq::<Inst>::empty() =~= out.insts());
        assert(Seq::<Inst>::empty() + goal->Ok_0.insts =~= goal->Ok_0.insts);
    }
    Ok(out.finish())
}

} // verus!
