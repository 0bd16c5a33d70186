//! The instructions that stand for a syntax tree.
//!
//! The generated code is a stack machine: the code of an expression pushes
//! exactly one value, and the code of a statement leaves the stack as it
//! found it. Every `if`, every loop and every call site takes one number
//! from a counter that runs through the whole program, and writes it into
//! its labels.

use crate::emit::{Inst, Jump, Label, Reg, Tag, Test};
use crate::grammar::{Ast, BinOp};
use vstd::prelude::*;

verus! {

/// Why no code could be generated.
#[derive(Clone, Copy, Debug, PartialEq, Eq, Structural)]
pub enum CodegenError {
    /// The left side of an assignment is not a variable.
    NotAnLvalue,
    /// A call passes more arguments than there are argument registers.
    TooManyArguments,
    /// A function takes more parameters than there are argument registers.
    TooManyParameters,
    /// A variable's slot lies outside the frame of its function.
    SlotOutOfFrame,
    /// A node stands where the grammar allows none of its kind.
    Malformed,
    /// The program needs more labels than a 32-bit counter can number.
    TooManyLabels,
}

impl CodegenError {
    /// The diagnostic for this error.
    pub open spec fn text(self) -> Seq<char> {
        match self {
            CodegenError::NotAnLvalue => "the left side of an assignment is not a variable"@,
            CodegenError::TooManyArguments => "a call passes more than six arguments"@,
            CodegenError::TooManyParameters => "a function takes more than six parameters"@,
            CodegenError::SlotOutOfFrame => "a variable lies outside the frame of its function"@,
            CodegenError::Malformed =>
                "the syntax tree holds a node where none of its kind may stand"@,
            CodegenError::TooManyLabels => "the program needs more labels than can be numbered"@,
        }
    }

    /// A diagnostic that names what could not be generated.
    pub fn message(&self) -> (text: String)
        ensures
            text@ == self.text(),
    {
        match self {
            CodegenError::NotAnLvalue => String::from_str(
                "the left side of an assignment is not a variable",
            ),
            CodegenError::TooManyArguments => String::from_str(
                "a call passes more than six arguments",
            ),
            CodegenError::TooManyParameters => String::from_str(
                "a function takes more than six parameters",
            ),
            CodegenError::SlotOutOfFrame => String::from_str(
                "a variable lies outside the frame of its function",
            ),
            CodegenError::Malformed => String::from_str(
                "the syntax tree holds a node where none of its kind may stand",
            ),
            CodegenError::TooManyLabels => String::from_str(
                "the program needs more labels than can be numbered",
            ),
        }
    }
}

/// Instructions, and the label counter after them.
pub struct Code {
    pub insts: Seq<Inst>,
    pub next: nat,
}

/// The instructions `done` followed by `more`, or the error of `more`.
pub open spec fn after(done: Seq<Inst>, more: Result<Code, CodegenError>) -> Result<
    Code,
    CodegenError,
> {
    match more {
        Ok(c) => Ok(Code { insts: done + c.insts, next: c.next }),
        Err(e) => Err(e),
    }
}

/// The number of argument registers.
pub open spec fn max_args() -> nat {
    6
}

/// The register that carries the argument of index `i`.
pub open spec fn arg_reg(i: int) -> Reg {
    if i == 0 {
        Reg::Rdi
    } else if i == 1 {
        Reg::Rsi
    } else if i == 2 {
        Reg::Rdx
    } else if i == 3 {
        Reg::Rcx
    } else if i == 4 {
        Reg::R8
    } else {
        Reg::R9
    }
}

/// The largest number that a label can carry.
pub open spec fn max_label() -> nat {
    0xffff_fffe
}

/// Pushes the address of the variable `a`, whose slot lies `offset` bytes
/// above the low end of a frame of `frame` bytes.
pub open spec fn address_code(a: Ast, frame: nat) -> Result<Seq<Inst>, CodegenError> {
    match a {
        Ast::Var(offset) => if offset < frame {
            Ok(seq![Inst::Address((frame - offset) as nat), Inst::Push(Reg::Rax)])
        } else {
            Err(CodegenError::SlotOutOfFrame)
        },
        _ => Err(CodegenError::NotAnLvalue),
    }
}

/// Applies `op` to the left operand in `rax` and the right operand in `rdi`,
/// and pushes the result.
pub open spec fn operation(op: BinOp) -> Seq<Inst> {
    match op {
        BinOp::Add => seq![Inst::Add, Inst::Push(Reg::Rax)],
        BinOp::Sub => seq![Inst::Sub, Inst::Push(Reg::Rax)],
        BinOp::Mul => seq![Inst::Mul, Inst::Push(Reg::Rax)],
        BinOp::Div => seq![Inst::SignExtend, Inst::Div, Inst::Push(Reg::Rax)],
        BinOp::Eq => seq![
            Inst::Compare,
            Inst::Flag(Test::Equal),
            Inst::Widen,
            Inst::Push(Reg::Rax),
        ],
        BinOp::Ne => seq![
            Inst::Compare,
            Inst::Flag(Test::NotEqual),
            Inst::Widen,
            Inst::Push(Reg::Rax),
        ],
        BinOp::Lt => seq![
            Inst::Compare,
            Inst::Flag(Test::Less),
            Inst::Widen,
            Inst::Push(Reg::Rax),
        ],
        BinOp::Le => seq![
            Inst::Compare,
            Inst::Flag(Test::LessOrEqual),
            Inst::Widen,
            Inst::Push(Reg::Rax),
        ],
    }
}

/// Pops `count` arguments into their registers, the last one first.
pub open spec fn pops(count: nat) -> Seq<Inst> {
    Seq::new(count, |i: int| Inst::Pop(arg_reg(count - 1 - i)))
}

/// Calls `name` with the stack pointer at a multiple of 16, whatever it was
/// before, and pushes the result. The labels carry the number `sc`.
pub open spec fn aligned_call(name: Seq<char>, sc: nat) -> Seq<Inst> {
    seq![
        Inst::Mov(Reg::Rax, Reg::Rsp),
        Inst::LowBits,
        Inst::Go(Jump::IfNotZero, Label::Local(Tag::Call, sc)),
        Inst::Zero,
        Inst::Call(name),
        Inst::Go(Jump::Always, Label::Local(Tag::CallEnd, sc)),
        Inst::Mark(Label::Local(Tag::Call, sc)),
        Inst::Grow(8),
        Inst::Zero,
        Inst::Call(name),
        Inst::Shrink(8),
        Inst::Mark(Label::Local(Tag::CallEnd, sc)),
        Inst::Push(Reg::Rax),
    ]
}

/// Pops the value of a condition and leaves for the label `tag`, `sc` if it
/// is zero.
pub open spec fn branch_if_zero(tag: Tag, sc: nat) -> Seq<Inst> {
    seq![Inst::Pop(Reg::Rax), Inst::TestZero, Inst::Go(Jump::IfEqual, Label::Local(tag, sc))]
}

/// The code of the expression `a`: it pushes the value of `a`. The labels
/// are numbered from `n` on.
#[verifier::opaque]
pub open spec fn expr_code(a: Ast, n: nat, frame: nat) -> Result<Code, CodegenError>
    decreases a, 0nat,
{
    match a {
        Ast::Num(v) => Ok(Code { insts: seq![Inst::PushNum(v)], next: n }),
        Ast::Var(_) => match address_code(a, frame) {
            Err(e) => Err(e),
            Ok(addr) => Ok(
                Code {
                    insts: addr + seq![Inst::Pop(Reg::Rax), Inst::Load, Inst::Push(Reg::Rax)],
                    next: n,
                },
            ),
        },
        Ast::Assign(place, value) => match address_code(*place, frame) {
            Err(e) => Err(e),
            Ok(addr) => match expr_code(*value, n, frame) {
                Err(e) => Err(e),
                Ok(v) => Ok(
                    Code {
                        insts: addr + v.insts + seq![
                            Inst::Pop(Reg::Rdi),
                            Inst::Pop(Reg::Rax),
                            Inst::Store,
                            Inst::Push(Reg::Rdi),
                        ],
                        next: v.next,
                    },
                ),
            },
        },
        Ast::Binary(op, lhs, rhs) => match expr_code(*lhs, n, frame) {
            Err(e) => Err(e),
            Ok(l) => match expr_code(*rhs, l.next, frame) {
                Err(e) => Err(e),
                Ok(r) => Ok(
                    Code {
                        insts: l.insts + r.insts + seq![Inst::Pop(Reg::Rdi), Inst::Pop(Reg::Rax)]
                            + operation(op),
                        next: r.next,
                    },
                ),
            },
        },
        Ast::Call(name, args) => match args_code(args, 0, n, frame) {
            Err(e) => Err(e),
            Ok(c) => if args.len() > max_args() {
                Err(CodegenError::TooManyArguments)
            } else if c.next > max_label() {
                Err(CodegenError::TooManyLabels)
            } else {
                Ok(
                    Code {
                        insts: c.insts + pops(args.len()) + aligned_call(name, c.next),
                        next: c.next + 1,
                    },
                )
            },
        },
        _ => Err(CodegenError::Malformed),
    }
}

/// The code of the arguments of a call from index `i` on, in order.
#[verifier::opaque]
pub open spec fn args_code(args: Seq<Ast>, i: nat, n: nat, frame: nat) -> Result<
    Code,
    CodegenError,
>
    decreases args, args.len() - i,
{
    if i >= args.len() {
        Ok(Code { insts: Seq::empty(), next: n })
    } else {
        match expr_code(args[i as int], n, frame) {
            Err(e) => Err(e),
            Ok(c) => after(c.insts, args_code(args, i + 1, c.next, frame)),
        }
    }
}

/// The test of a `for` loop: none where the condition was left out, so that
/// the loop goes on until something else ends it.
pub open spec fn test_code(cond: Ast, n: nat, frame: nat, sc: nat) -> Result<Code, CodegenError> {
    if cond is Nothing {
        Ok(Code { insts: Seq::empty(), next: n })
    } else {
        match expr_code(cond, n, frame) {
            Err(e) => Err(e),
            Ok(c) => Ok(Code { insts: c.insts + branch_if_zero(Tag::End, sc), next: c.next }),
        }
    }
}

/// The code of the statement `a` in the function `fname`: it leaves the
/// stack as it found it. An expression that stands as a statement has its
/// value popped; a clause that was left out has no code.
#[verifier::opaque]
pub open spec fn stmt_code(a: Ast, n: nat, fname: Seq<char>, frame: nat) -> Result<
    Code,
    CodegenError,
>
    decreases a, 0nat,
{
    match a {
        Ast::Nothing => Ok(Code { insts: Seq::empty(), next: n }),
        Ast::Return(value) => match expr_code(*value, n, frame) {
            Err(e) => Err(e),
            Ok(v) => Ok(
                Code {
                    insts: v.insts + seq![
                        Inst::Pop(Reg::Rax),
                        Inst::Go(Jump::Always, Label::Return(fname)),
                    ],
                    next: v.next,
                },
            ),
        },
        Ast::If(cond, cons, alt) => if n > max_label() {
            Err(CodegenError::TooManyLabels)
        } else {
            match expr_code(*cond, n + 1, frame) {
                Err(e) => Err(e),
                Ok(c) => match stmt_code(*cons, c.next, fname, frame) {
                    Err(e) => Err(e),
                    Ok(t) => match stmt_code(*alt, t.next, fname, frame) {
                        Err(e) => Err(e),
                        Ok(f) => Ok(
                            Code {
                                insts: c.insts + branch_if_zero(Tag::Else, n) + t.insts + seq![
                                    Inst::Go(Jump::Always, Label::Local(Tag::End, n)),
                                    Inst::Mark(Label::Local(Tag::Else, n)),
                                ] + f.insts + seq![Inst::Mark(Label::Local(Tag::End, n))],
                                next: f.next,
                            },
                        ),
                    },
                },
            }
        },
        Ast::While(cond, body) => if n > max_label() {
            Err(CodegenError::TooManyLabels)
        } else {
            match expr_code(*cond, n + 1, frame) {
                Err(e) => Err(e),
                Ok(c) => match stmt_code(*body, c.next, fname, frame) {
                    Err(e) => Err(e),
                    Ok(b) => Ok(
                        Code {
                            insts: seq![Inst::Mark(Label::Local(Tag::Begin, n))] + c.insts
                                + branch_if_zero(Tag::End, n) + b.insts + seq![
                                Inst::Go(Jump::Always, Label::Local(Tag::Begin, n)),
                                Inst::Mark(Label::Local(Tag::End, n)),
                            ],
                            next: b.next,
                        },
                    ),
                },
            }
        },
        Ast::For(init, cond, inc, body) => if n > max_label() {
            Err(CodegenError::TooManyLabels)
        } else {
            match stmt_code(*init, n + 1, fname, frame) {
                Err(e) => Err(e),
                Ok(i) => match test_code(*cond, i.next, frame, n) {
                    Err(e) => Err(e),
                    Ok(c) => match stmt_code(*body, c.next, fname, frame) {
                        Err(e) => Err(e),
                        Ok(b) => match stmt_code(*inc, b.next, fname, frame) {
                            Err(e) => Err(e),
                            Ok(s) => Ok(
                                Code {
                                    insts: i.insts + seq![Inst::Mark(Label::Local(Tag::Begin, n))]
                                        + c.insts + b.insts + s.insts + seq![
                                        Inst::Go(Jump::Always, Label::Local(Tag::Begin, n)),
                                        Inst::Mark(Label::Local(Tag::End, n)),
                                    ],
                                    next: s.next,
                                },
                            ),
                        },
                    },
                },
            }
        },
        Ast::Block(stmts) => stmts_code(stmts, 0, n, fname, frame),
        Ast::Function { .. } => Err(CodegenError::Malformed),
        _ => match expr_code(a, n, frame) {
            Err(e) => Err(e),
            Ok(v) => Ok(Code { insts: v.insts.push(Inst::Pop(Reg::Rax)), next: v.next }),
        },
    }
}

/// The code of the statements `stmts` from index `i` on, in order.
#[verifier::opaque]
pub open spec fn stmts_code(
    stmts: Seq<Ast>,
    i: nat,
    n: nat,
    fname: Seq<char>,
    frame: nat,
) -> Result<Code, CodegenError>
    decreases stmts, stmts.len() - i,
{
    if i >= stmts.len() {
        Ok(Code { insts: Seq::empty(), next: n })
    } else {
        match stmt_code(stmts[i as int], n, fname, frame) {
            Err(e) => Err(e),
            Ok(c) => after(c.insts, stmts_code(stmts, i + 1, c.next, fname, frame)),
        }
    }
}

/// Copies the parameter of index `i` from its register into its slot.
pub open spec fn spill(param: Ast, i: nat, frame: nat) -> Result<Inst, CodegenError> {
    match param {
        Ast::Var(offset) => if offset >= frame {
            Err(CodegenError::SlotOutOfFrame)
        } else if i >= max_args() {
            Err(CodegenError::TooManyParameters)
        } else {
            Ok(Inst::Spill((frame - offset) as nat, arg_reg(i as int)))
        },
        _ => Err(CodegenError::Malformed),
    }
}

/// Copies the parameters from index `i` on from the argument registers into
/// their slots, in the order of the parameter list.
#[verifier::opaque]
pub open spec fn spills(params: Seq<Ast>, i: nat, frame: nat) -> Result<Seq<Inst>, CodegenError>
    decreases params.len() - i,
{
    if i >= params.len() {
        Ok(Seq::empty())
    } else {
        match spill(params[i as int], i, frame) {
            Err(e) => Err(e),
            Ok(copy) => match spills(params, i + 1, frame) {
                Err(e) => Err(e),
                Ok(more) => Ok(seq![copy] + more),
            },
        }
    }
}

/// What a routine starts with: its name as a global symbol, the caller's
/// frame pointer saved, the new frame set up.
pub open spec fn prologue(name: Seq<char>, frame: nat) -> Seq<Inst> {
    seq![
        Inst::Global(name),
        Inst::Entry(name),
        Inst::Push(Reg::Rbp),
        Inst::Mov(Reg::Rbp, Reg::Rsp),
        Inst::Grow(frame),
    ]
}

/// What a routine ends with: the label that `return` jumps to, the frame
/// torn down, the return.
pub open spec fn epilogue(name: Seq<char>) -> Seq<Inst> {
    seq![
        Inst::Mark(Label::Return(name)),
        Inst::Mov(Reg::Rsp, Reg::Rbp),
        Inst::Pop(Reg::Rbp),
        Inst::Ret,
    ]
}

/// The routine of the function `f`.
pub open spec fn function_code(f: Ast, n: nat) -> Result<Code, CodegenError> {
    match f {
        Ast::Function { name, body, params, frame } => match spills(params, 0, frame) {
            Err(e) => Err(e),
            Ok(copies) => match stmts_code(body, 0, n, name, frame) {
                Err(e) => Err(e),
                Ok(b) => Ok(
                    Code {
                        insts: prologue(name, frame) + copies + b.insts + epilogue(name),
                        next: b.next,
                    },
                ),
            },
        },
        _ => Err(CodegenError::Malformed),
    }
}

/// The routines of the functions `funcs` from index `i` on, in order.
#[verifier::opaque]
pub open spec fn functions_code(funcs: Seq<Ast>, i: nat, n: nat) -> Result<Code, CodegenError>
    decreases funcs.len() - i,
{
    if i >= funcs.len() {
        Ok(Code { insts: Seq::empty(), next: n })
    } else {
        match function_code(funcs[i as int], n) {
            Err(e) => Err(e),
            Ok(c) => after(c.insts, functions_code(funcs, i + 1, c.next)),
        }
    }
}

/// The instructions of a whole program: one routine for each function, in
/// order, with the labels numbered from zero.
pub open spec fn program_code(funcs: Seq<Ast>) -> Result<Seq<Inst>, CodegenError> {
    match functions_code(funcs, 0, 0) {
        Err(e) => Err(e),
        Ok(c) => Ok(c.insts),
    }
}

} // verus!
