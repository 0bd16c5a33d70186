//! The assembly text that the code generator writes, as a sequence of
//! instructions, and a writer that keeps the two in step.

use crate::text::{decimal, push_decimal};
use vstd::prelude::*;

verus! {

/// The registers that the generated code names.
#[derive(Clone, Copy, Debug, PartialEq, Eq, Structural)]
pub enum Reg {
    Rax,
    Rdi,
    Rsi,
    Rdx,
    Rcx,
    R8,
    R9,
    Rbp,
    Rsp,
}

/// The kinds of numbered labels. An `if` owns an `Else` and an `End`, a loop
/// a `Begin` and an `End`, a call site a `Call` and a `CallEnd`.
#[derive(Clone, Copy, Debug, PartialEq, Eq, Structural)]
pub enum Tag {
    Else,
    End,
    Begin,
    Call,
    CallEnd,
}

/// A jump target.
pub enum Label {
    /// The epilogue of the function of that name.
    Return(Seq<char>),
    /// A label of the given kind with its number.
    Local(Tag, nat),
}

/// The conditions that a comparison can test.
#[derive(Clone, Copy, Debug, PartialEq, Eq, Structural)]
pub enum Test {
    Equal,
    NotEqual,
    Less,
    LessOrEqual,
}

/// The three jumps.
#[derive(Clone, Copy, Debug, PartialEq, Eq, Structural)]
pub enum Jump {
    Always,
    IfEqual,
    IfNotZero,
}

/// One line of assembly.
pub enum Inst {
    /// `.global f`
    Global(Seq<char>),
    /// `f:`
    Entry(Seq<char>),
    /// A label's definition.
    Mark(Label),
    /// `push r`
    Push(Reg),
    /// `push n`
    PushNum(nat),
    /// `pop r`
    Pop(Reg),
    /// `mov dst, src`
    Mov(Reg, Reg),
    /// `mov rax, 0`
    Zero,
    /// `sub rsp, n`
    Grow(nat),
    /// `add rsp, n`
    Shrink(nat),
    /// `mov [rbp-k], r`
    Spill(nat, Reg),
    /// `lea rax, [rbp-k]`
    Address(nat),
    /// `mov rax, [rax]`
    Load,
    /// `mov [rax], rdi`
    Store,
    /// `add rax, rdi`
    Add,
    /// `sub rax, rdi`
    Sub,
    /// `imul rax, rdi`
    Mul,
    /// `cqo`
    SignExtend,
    /// `idiv rdi`
    Div,
    /// `cmp rax, rdi`
    Compare,
    /// `sete al` and its kin
    Flag(Test),
    /// `movzb rax, al`
    Widen,
    /// `cmp rax, 0`
    TestZero,
    /// `and rax, 15`
    LowBits,
    /// A jump to a label.
    Go(Jump, Label),
    /// `call f`
    Call(Seq<char>),
    /// `ret`
    Ret,
}

/// How a register is written.
pub open spec fn reg_name(r: Reg) -> Seq<char> {
    match r {
        Reg::Rax => "rax"@,
        Reg::Rdi => "rdi"@,
        Reg::Rsi => "rsi"@,
        Reg::Rdx => "rdx"@,
        Reg::Rcx => "rcx"@,
        Reg::R8 => "r8"@,
        Reg::R9 => "r9"@,
        Reg::Rbp => "rbp"@,
        Reg::Rsp => "rsp"@,
    }
}

/// What stands before the number in a numbered label.
pub open spec fn tag_text(tag: Tag) -> Seq<char> {
    match tag {
        Tag::Else => ".Lelse"@,
        Tag::End => ".Lend"@,
        Tag::Begin => ".Lbegin"@,
        Tag::Call => ".L.call."@,
        Tag::CallEnd => ".L.end."@,
    }
}

/// How a label is written.
pub open spec fn label_text(label: Label) -> Seq<char> {
    match label {
        Label::Return(name) => ".L.return."@ + name,
        Label::Local(tag, n) => tag_text(tag) + decimal(n as int),
    }
}

/// The mnemonic of a jump to `label`, with the blanks that follow it.
pub open spec fn jump_text(jump: Jump, label: Label) -> Seq<char> {
    match jump {
        Jump::Always => if label matches Label::Local(Tag::Begin, _) {
            "  jmp  "@
        } else {
            "  jmp "@
        },
        Jump::IfEqual => "  je  "@,
        Jump::IfNotZero => "  jnz "@,
    }
}

/// The text of one instruction, without the end of the line.
pub open spec fn line(inst: Inst) -> Seq<char> {
    match inst {
        Inst::Global(name) => ".global "@ + name,
        Inst::Entry(name) => name + ":"@,
        Inst::Mark(label) => label_text(label) + ":"@,
        Inst::Push(r) => "  push "@ + reg_name(r),
        Inst::PushNum(n) => "  push "@ + decimal(n as int),
        Inst::Pop(r) => "  pop "@ + reg_name(r),
        Inst::Mov(dst, src) => "  mov "@ + reg_name(dst) + ", "@ + reg_name(src),
        Inst::Zero => "  mov rax, 0"@,
        Inst::Grow(n) => "  sub rsp, "@ + decimal(n as int),
        Inst::Shrink(n) => "  add rsp, "@ + decimal(n as int),
        Inst::Spill(k, r) => "  mov [rbp-"@ + decimal(k as int) + "], "@ + reg_name(r),
        Inst::Address(k) => "  lea rax, [rbp-"@ + decimal(k as int) + "]"@,
        Inst::Load => "  mov rax, [rax]"@,
        Inst::Store => "  mov [rax], rdi"@,
        Inst::Add => "  add rax, rdi"@,
        Inst::Sub => "  sub rax, rdi"@,
        Inst::Mul => "  imul rax, rdi"@,
        Inst::SignExtend => "  cqo"@,
        Inst::Div => "  idiv rdi"@,
        Inst::Compare => "  cmp rax, rdi"@,
        Inst::Flag(test) => match test {
            Test::Equal => "  sete al"@,
            Test::NotEqual => "  setne al"@,
            Test::Less => "  setl al"@,
            Test::LessOrEqual => "  setle al"@,
        },
        Inst::Widen => "  movzb rax, al"@,
        Inst::TestZero => "  cmp rax, 0"@,
        Inst::LowBits => "  and rax, 15"@,
        Inst::Go(jump, label) => jump_text(jump, label) + label_text(label),
        Inst::Call(name) => "  call "@ + name,
        Inst::Ret => "  ret"@,
    }
}

/// The text of a sequence of instructions: one line each, every line ended
/// by a newline.
pub open spec fn render(insts: Seq<Inst>) -> Seq<char>
    decreases insts.len(),
{
    if insts.len() == 0 {
        Seq::empty()
    } else {
        render(insts.drop_last()) + line(insts.last()) + "\n"@
    }
}

/// The text of two sequences of instructions, one after the other, is the
/// text of the first followed by the text of the second.
pub proof fn lemma_render_concat(a: Seq<Inst>, b: Seq<Inst>)
    ensures
        render(a + b) == render(a) + render(b),
    decreases b.len(),
{
    if b.len() == 0 {
        assert(a + b =~= a);
        assert(render(a) + render(b) =~= render(a));
    } else {
        lemma_render_concat(a, b.drop_last());
        assert((a + b).drop_last() =~= a + b.drop_last());
        assert((a + b).last() == b.last());
        assert(render(a + b) =~= render(a) + render(b));
    }
}

/// Assembly text under construction, together with the instructions that
/// it spells.
pub struct Listing {
    text: String,
    insts: Ghost<Seq<Inst>>,
    pending: Ghost<Seq<char>>,
}

impl Listing {
    /// The instructions written so far.
    pub closed spec fn insts(&self) -> Seq<Inst> {
        self.insts@
    }

    /// The part of the line under construction that has been written.
    pub closed spec fn pending(&self) -> Seq<char> {
        self.pending@
    }

    /// The text written so far.
    pub closed spec fn text(&self) -> Seq<char> {
        self.text@
    }

    /// The text spells the instructions, followed by the line under
    /// construction.
    pub open spec fn wf(&self) -> bool {
        self.text() == render(self.insts()) + self.pending()
    }

    /// The text spells whole instructions only: no line is under
    /// construction.
    pub open spec fn settled(&self) -> bool {
        self.wf() && self.pending() == Seq::<char>::empty()
    }

    /// An empty text.
    pub fn new() -> (listing: Listing)
        ensures
            listing.settled(),
            listing.insts() == Seq::<Inst>::empty(),
    {
        let listing = Listing {
            text: String::new(),
            insts: Ghost(Seq::empty()),
            pending: Ghost(Seq::empty()),
        };
        assert(listing.text@ =~= render(listing.insts@) + listing.pending@);
        listing
    }

    /// The text, once no line is under construction.
    pub fn finish(self) -> (text: String)
        requires
            self.settled(),
        ensures
            text@ == render(self.insts()),
    {
        assert(self.text@ =~= render(self.insts@));
        self.text
    }

    /// Writes `piece` on the line under construction.
    pub fn put(&mut self, piece: &str)
        requires
            old(self).wf(),
        ensures
            final(self).wf(),
            final(self).insts() == old(self).insts(),
            final(self).pending() == old(self).pending() + piece@,
    {
        self.text.append(piece);
        self.pending = Ghost(self.pending@ + piece@);
        assert(self.text@ =~= render(self.insts@) + self.pending@);
    }

    /// Writes `n` in decimal on the line under construction.
    pub fn put_number(&mut self, n: u32)
        requires
            old(self).wf(),
        ensures
            final(self).wf(),
            final(self).insts() == old(self).insts(),
            final(self).pending() == old(self).pending() + decimal(n as int),
    {
        push_decimal(&mut self.text, n as u64);
        self.pending = Ghost(self.pending@ + decimal(n as int));
        assert(self.text@ =~= render(self.insts@) + self.pending@);
    }

    /// Ends the line under construction, which spells `inst`.
    pub(crate) fn end(&mut self, Ghost(inst): Ghost<Inst>)
        requires
            old(self).wf(),
            old(self).pending() == line(inst),
        ensures
            final(self).settled(),
            final(self).insts() == old(self).insts().push(inst),
    {
        self.text.append("\n");
        proof {
            let before = self.insts@;
            let after = before.push(inst);
            assert(after.drop_last() =~= before);
            assert(after.last() == inst);
            assert(self.text@ =~= render(after) + Seq::<char>::empty());
        }
        self.insts = Ghost(self.insts@.push(inst));
        self.pending = Ghost(Seq::empty());
    }

    /// Writes the instruction `inst`, whose text is `text`.
    pub(crate) fn fixed(&mut self, Ghost(inst): Ghost<Inst>, text: &str)
        requires
            old(self).settled(),
            line(inst) == text@,
        ensures
            final(self).settled(),
            final(self).insts() == old(self).insts().push(inst),
    {
        self.put(text);
        assert(self.pending() =~= text@);
        self.end(Ghost(inst));
    }

    /// Writes the instruction `inst`, whose text is `prefix` and the name
    /// of `r`.
    pub(crate) fn with_reg(&mut self, Ghost(inst): Ghost<Inst>, prefix: &str, r: Reg)
        requires
            old(self).settled(),
            line(inst) == prefix@ + reg_name(r),
        ensures
            final(self).settled(),
            final(self).insts() == old(self).insts().push(inst),
    {
        self.put(prefix);
        self.put(reg_str(r));
        assert(self.pending() =~= prefix@ + reg_name(r));
        self.end(Ghost(inst));
    }

    /// Writes the instruction `inst`, whose text is `prefix` and `n` in
    /// decimal.
    pub(crate) fn with_number(&mut self, Ghost(inst): Ghost<Inst>, prefix: &str, n: u32)
        requires
            old(self).settled(),
            line(inst) == prefix@ + decimal(n as int),
        ensures
            final(self).settled(),
            final(self).insts() == old(self).insts().push(inst),
    {
        self.put(prefix);
        self.put_number(n);
        assert(self.pending() =~= prefix@ + decimal(n as int));
        self.end(Ghost(inst));
    }

    /// Writes the instruction `inst`, whose text is `prefix` and `name`.
    pub(crate) fn with_name(&mut self, Ghost(inst): Ghost<Inst>, prefix: &str, name: &str)
        requires
            old(self).settled(),
            line(inst) == prefix@ + name@,
        ensures
            final(self).settled(),
            final(self).insts() == old(self).insts().push(inst),
    {
        self.put(prefix);
        self.put(name);
        assert(self.pending() =~= prefix@ + name@);
        self.end(Ghost(inst));
    }

    /// The label that the function `name` starts at.
    pub fn entry(&mut self, name: &str)
        requires
            old(self).settled(),
        ensures
            final(self).settled(),
            final(self).insts() == old(self).insts().push(Inst::Entry(name@)),
    {
        self.put(name);
        self.put(":");
        assert(self.pending() =~= name@ + ":"@);
        self.end(Ghost(Inst::Entry(name@)));
    }

    /// `mov dst, src`
    pub fn mov(&mut self, dst: Reg, src: Reg)
        requires
            old(self).settled(),
        ensures
            final(self).settled(),
            final(self).insts() == old(self).insts().push(Inst::Mov(dst, src)),
    {
        self.put("  mov ");
        self.put(reg_str(dst));
        self.put(", ");
        self.put(reg_str(src));
        assert(self.pending() =~= line(Inst::Mov(dst, src)));
        self.end(Ghost(Inst::Mov(dst, src)));
    }

    /// `mov [rbp-k], r`
    pub fn spill(&mut self, k: u32, r: Reg)
        requires
            old(self).settled(),
        ensures
            final(self).settled(),
            final(self).insts() == old(self).insts().push(Inst::Spill(k as nat, r)),
    {
        self.put("  mov [rbp-");
        self.put_number(k);
        self.put("], ");
        self.put(reg_str(r));
        assert(self.pending() =~= line(Inst::Spill(k as nat, r)));
        self.end(Ghost(Inst::Spill(k as nat, r)));
    }

    /// `lea rax, [rbp-k]`
    pub fn address(&mut self, k: u32)
        requires
            old(self).settled(),
        ensures
            final(self).settled(),
            final(self).insts() == old(self).insts().push(Inst::Address(k as nat)),
    {
        self.put("  lea rax, [rbp-");
        self.put_number(k);
        self.put("]");
        assert(self.pending() =~= line(Inst::Address(k as nat)));
        self.end(Ghost(Inst::Address(k as nat)));
    }

    /// The definition of the numbered label `tag`, `n`.
    pub fn mark(&mut self, tag: Tag, n: u32)
        requires
            old(self).settled(),
        ensures
            final(self).settled(),
            final(self).insts() == old(self).insts().push(
                Inst::Mark(Label::Local(tag, n as nat)),
            ),
    {
        self.put(tag_str(tag));
        self.put_number(n);
        self.put(":");
        assert(self.pending() =~= line(Inst::Mark(Label::Local(tag, n as nat))));
        self.end(Ghost(Inst::Mark(Label::Local(tag, n as nat))));
    }

    /// A jump to the numbered label `tag`, `n`.
    pub fn go(&mut self, jump: Jump, tag: Tag, n: u32)
        requires
            old(self).settled(),
        ensures
            final(self).settled(),
            final(self).insts() == old(self).insts().push(
                Inst::Go(jump, Label::Local(tag, n as nat)),
            ),
    {
        let ghost label = Label::Local(tag, n as nat);
        match jump {
            Jump::Always => match tag {
                Tag::Begin => self.put("  jmp  "),
                _ => self.put("  jmp "),
            },
            Jump::IfEqual => self.put("  je  "),
            Jump::IfNotZero => self.put("  jnz "),
        }
        assert(self.pending() =~= jump_text(jump, label));
        self.put(tag_str(tag));
        self.put_number(n);
        assert(self.pending() =~= line(Inst::Go(jump, label)));
        self.end(Ghost(Inst::Go(jump, label)));
    }

    /// The definition of the epilogue label of the function `name`.
    pub fn mark_return(&mut self, name: &str)
        requires
            old(self).settled(),
        ensures
            final(self).settled(),
            final(self).insts() == old(self).insts().push(Inst::Mark(Label::Return(name@))),
    {
        self.put(".L.return.");
        self.put(name);
        self.put(":");
        assert(self.pending() =~= line(Inst::Mark(Label::Return(name@))));
        self.end(Ghost(Inst::Mark(Label::Return(name@))));
    }

    /// A jump to the epilogue of the function `name`.
    pub fn go_return(&mut self, name: &str)
        requires
            old(self).settled(),
        ensures
            final(self).settled(),
            final(self).insts() == old(self).insts().push(
                Inst::Go(Jump::Always, Label::Return(name@)),
            ),
    {
        self.put("  jmp ");
        self.put(".L.return.");
        self.put(name);
        assert(self.pending() =~= line(Inst::Go(Jump::Always, Label::Return(name@))));
        self.end(Ghost(Inst::Go(Jump::Always, Label::Return(name@))));
    }
}

/// How `r` is written.
pub fn reg_str(r: Reg) -> (text: &'static str)
    ensures
        text@ == reg_name(r),
{
    match r {
        Reg::Rax => "rax",
        Reg::Rdi => "rdi",
        Reg::Rsi => "rsi",
        Reg::Rdx => "rdx",
        Reg::Rcx => "rcx",
        Reg::R8 => "r8",
        Reg::R9 => "r9",
        Reg::Rbp => "rbp",
        Reg::Rsp => "rsp",
    }
}

/// What stands before the number in a label of kind `tag`.
pub fn tag_str(tag: Tag) -> (text: &'static str)
    ensures
        text@ == tag_text(tag),
{
    match tag {
        Tag::Else => ".Lelse",
        Tag::End => ".Lend",
        Tag::Begin => ".Lbegin",
        Tag::Call => ".L.call.",
        Tag::CallEnd => ".L.end.",
    }
}

} // verus!
