//! The target IR: the source IR with machine operands and an explicit return.
use vstd::prelude::*;
use vstd::string::*;

use crate::tacky;
use crate::tacky::Tacky;
use crate::text::{append_signed_decimal, signed_decimal};

verus! {

#[derive(Debug, Clone, Copy, PartialEq, Eq, Structural)]
pub enum Operand {
    Immediate(i64),
    /// The return-value register.
    Register,
}

#[derive(Debug, Clone, Copy, PartialEq, Eq, Structural)]
pub enum Instruction {
    Mov { src: Operand, dst: Operand },
    Ret,
}

#[derive(Debug, Clone, PartialEq, Eq)]
pub struct FnDef {
    pub name: String,
    pub body: Vec<Instruction>,
}

#[derive(Debug, Clone, PartialEq, Eq)]
pub struct Program {
    pub main: FnDef,
}

/// The target IR of one compilation unit.
#[derive(Debug, Clone, PartialEq, Eq)]
pub struct X86 {
    pub nodes: Program,
}

/// What one source-IR item lowers to.
#[derive(Debug, Clone, PartialEq, Eq)]
pub enum NodeKind {
    Program(Program),
    FnDef(FnDef),
    Instructions(Vec<Instruction>),
    Operand(Operand),
}

pub open spec fn operand_of(o: tacky::Operand) -> Operand {
    match o {
        tacky::Operand::Immediate(v) => Operand::Immediate(v),
        tacky::Operand::Register => Operand::Register,
    }
}

pub open spec fn instruction_of(i: tacky::Instruction) -> Instruction {
    match i {
        tacky::Instruction::Mov { src, dst } => Instruction::Mov {
            src: operand_of(src),
            dst: operand_of(dst),
        },
        tacky::Instruction::Ret => Instruction::Ret,
    }
}

/// A function body: each instruction carried over, then a return.
pub open spec fn body_of(b: Seq<tacky::Instruction>) -> Seq<Instruction> {
    Seq::new(b.len(), |i: int| instruction_of(b[i])).push(Instruction::Ret)
}

pub fn lower_operand(o: tacky::Operand) -> (r: Operand)
    ensures
        r == operand_of(o),
{
    match o {
        tacky::Operand::Immediate(v) => Operand::Immediate(v),
        tacky::Operand::Register => Operand::Register,
    }
}

pub fn lower_instruction(i: tacky::Instruction) -> (r: Instruction)
    ensures
        r == instruction_of(i),
{
    match i {
        tacky::Instruction::Mov { src, dst } => Instruction::Mov {
            src: lower_operand(src),
            dst: lower_operand(dst),
        },
        tacky::Instruction::Ret => Instruction::Ret,
    }
}

pub fn lower_fn_def(f: &tacky::FnDef) -> (r: FnDef)
    ensures
        r.name@ == f.name@,
        r.body@ == body_of(f.body@),
{
    let mut body: Vec<Instruction> = Vec::new();
    let mut i: usize = 0;
    while i < f.body.len()
        invariant
            i <= f.body@.len(),
            body@ == Seq::new(i as nat, |j: int| instruction_of(f.body@[j])),
        decreases f.body@.len() - i,
    {
        body.push(lower_instruction(f.body[i]));
        i = i + 1;
        assert(body@ =~= Seq::new(i as nat, |j: int| instruction_of(f.body@[j])));
    }
    body.push(Instruction::Ret);
    assert(body@ =~= body_of(f.body@));
    FnDef { name: f.name.clone(), body }
}

/// Lowers the source IR: operands carry over and each function ends with an
/// explicit return.
pub fn lower(input: &Tacky) -> (r: X86)
    ensures
        r.nodes.main.name@ == input.nodes.main.name@,
        r.nodes.main.body@ == body_of(input.nodes.main.body@),
{
    X86 { nodes: Program { main: lower_fn_def(&input.nodes.main) } }
}

pub open spec fn operand_text(o: Operand) -> Seq<char> {
    match o {
        Operand::Immediate(v) => "Immediate("@ + signed_decimal(v as int) + ")"@,
        Operand::Register => "Register"@,
    }
}

/// One instruction of the dump, on a line of its own.
pub open spec fn instruction_text(i: Instruction) -> Seq<char> {
    "  Instruction ["@ + match i {
        Instruction::Mov { src, dst } => "Mov(src: "@ + operand_text(src) + ", dest: "@ + operand_text(
            dst,
        ) + ")"@,
        Instruction::Ret => "Ret"@,
    } + "],\n"@
}

pub open spec fn instructions_text(b: Seq<Instruction>) -> Seq<char>
    decreases b.len(),
{
    if b.len() == 0 {
        Seq::empty()
    } else {
        instructions_text(b.drop_last()) + instruction_text(b.last())
    }
}

/// The indented dump of a program: its function's name and instructions.
pub open spec fn dump_text(p: Program) -> Seq<char> {
    "Program(\n"@ + " Function(\n"@ + "  name = "@ + p.main.name@ + "\n"@ + "  instructions = [\n"@
        + instructions_text(p.main.body@) + "  ]\n"@ + " )\n"@ + ")\n"@
}

fn dump_operand(o: Operand, out: &mut String)
    ensures
        final(out)@ == old(out)@ + operand_text(o),
{
    match o {
        Operand::Immediate(v) => {
            out.append("Immediate(");
            append_signed_decimal(out, v);
            out.append(")");
        },
        Operand::Register => {
            out.append("Register");
        },
    }
    assert(final(out)@ =~= old(out)@ + operand_text(o));
}

fn dump_instruction(i: Instruction, out: &mut String)
    ensures
        final(out)@ == old(out)@ + instruction_text(i),
{
    out.append("  Instruction [");
    match i {
        Instruction::Mov { src, dst } => {
            out.append("Mov(src: ");
            dump_operand(src, out);
            out.append(", dest: ");
            dump_operand(dst, out);
            out.append(")");
        },
        Instruction::Ret => {
            out.append("Ret");
        },
    }
    out.append("],\n");
    assert(final(out)@ =~= old(out)@ + instruction_text(i));
}

impl X86 {
    /// The indented dump of the program.
    pub fn dump(&self) -> (r: String)
        ensures
            r@ == dump_text(self.nodes),
    {
        let f = &self.nodes.main;
        let mut out = String::new();
        out.append("Program(\n");
        out.append(" Function(\n");
        out.append("  name = ");
        out.append(f.name.as_str());
        out.append("\n");
        out.append("  instructions = [\n");
        let ghost head = out@;
        let mut i: usize = 0;
        while i < f.body.len()
            invariant
                i <= f.body@.len(),
                out@ == head + instructions_text(f.body@.take(i as int)),
            decreases f.body@.len() - i,
        {
            dump_instruction(f.body[i], &mut out);
            proof {
                let t = f.body@.take(i + 1);
                assert(t.drop_last() =~= f.body@.take(i as int));
            }
            i = i + 1;
            assert(out@ =~= head + instructions_text(f.body@.take(i as int)));
        }
        assert(f.body@.take(i as int) =~= f.body@);
        out.append("  ]\n");
        out.append(" )\n");
        out.append(")\n");
        assert(out@ =~= dump_text(self.nodes));
        out
    }
}

} // verus!
