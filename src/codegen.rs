//! The emitter: target IR to assembly text.
use vstd::prelude::*;
use vstd::string::*;

use crate::text::{append_signed_decimal, signed_decimal};
use crate::x86::{FnDef, Instruction, Operand, Program, X86};

verus! {

/// The conventions of the platform that the assembly is for.
#[derive(Debug, Clone, Copy, PartialEq, Eq, Structural)]
pub struct Target {
    /// Symbols carry a leading underscore (Mach-O).
    pub leading_underscore: bool,
    /// The output ends with a note section that marks the stack
    /// non-executable (ELF).
    pub stack_note: bool,
}

impl Target {
    pub fn linux() -> (r: Target)
        ensures
            !r.leading_underscore && r.stack_note,
    {
        Target { leading_underscore: false, stack_note: true }
    }

    pub fn macos() -> (r: Target)
        ensures
            r.leading_underscore && !r.stack_note,
    {
        Target { leading_underscore: true, stack_note: false }
    }
}

/// An error of the emitter. It is reserved for target instructions that the
/// emitter cannot render; every instruction of the current target IR renders.
#[derive(Debug, Clone, Copy, PartialEq, Eq, Structural)]
pub enum CodegenError {
    UnsupportedInstruction,
}

pub open spec fn operand_text(o: Operand) -> Seq<char> {
    match o {
        Operand::Immediate(v) => "$"@ + signed_decimal(v as int),
        Operand::Register => "%eax"@,
    }
}

pub open spec fn instruction_text(i: Instruction) -> Seq<char> {
    match i {
        Instruction::Mov { src, dst } => "    movl "@ + operand_text(src) + ", "@ + operand_text(dst)
            + "\n"@,
        Instruction::Ret => "    ret\n"@,
    }
}

/// The text of a sequence of instructions, one line each.
pub open spec fn body_text(b: Seq<Instruction>) -> Seq<char>
    decreases b.len(),
{
    if b.len() == 0 {
        Seq::empty()
    } else {
        body_text(b.drop_last()) + instruction_text(b.last())
    }
}

/// The symbol of a function on a platform.
pub open spec fn symbol(name: Seq<char>, target: Target) -> Seq<char> {
    if target.leading_underscore {
        "_"@ + name
    } else {
        name
    }
}

/// A function: its `.globl` directive, its label and its instructions.
pub open spec fn function_text(f: FnDef, target: Target) -> Seq<char> {
    ".globl "@ + symbol(f.name@, target) + "\n"@ + symbol(f.name@, target) + ":\n"@ + body_text(
        f.body@,
    )
}

pub open spec fn footer_text(target: Target) -> Seq<char> {
    if target.stack_note {
        "\n.section .note.GNU-stack,\"\",@progbits\n"@
    } else {
        Seq::empty()
    }
}

/// The assembly text of a whole program.
pub open spec fn assembly_text(x: X86, target: Target) -> Seq<char> {
    function_text(x.nodes.main, target) + footer_text(target)
}

fn emit_operand(o: Operand, out: &mut String)
    ensures
        final(out)@ == old(out)@ + operand_text(o),
{
    match o {
        Operand::Immediate(v) => {
            out.append("$");
            append_signed_decimal(out, v);
            assert(final(out)@ =~= old(out)@ + operand_text(o));
        },
        Operand::Register => {
            out.append("%eax");
        },
    }
}

fn emit_instruction(i: Instruction, out: &mut String)
    ensures
        final(out)@ == old(out)@ + instruction_text(i),
{
    match i {
        Instruction::Mov { src, dst } => {
            out.append("    movl ");
            emit_operand(src, out);
            out.append(", ");
            emit_operand(dst, out);
            out.append("\n");
            assert(final(out)@ =~= old(out)@ + instruction_text(i));
        },
        Instruction::Ret => {
            out.append("    ret\n");
        },
    }
}

fn emit_symbol(name: &String, target: Target, out: &mut String)
    ensures
        final(out)@ == old(out)@ + symbol(name@, target),
{
    if target.leading_underscore {
        out.append("_");
    }
    out.append(name.as_str());
    assert(final(out)@ =~= old(out)@ + symbol(name@, target));
}

fn emit_function(f: &FnDef, target: Target, out: &mut String)
    ensures
        final(out)@ == old(out)@ + function_text(*f, target),
{
    out.append(".globl ");
    emit_symbol(&f.name, target, out);
    out.append("\n");
    emit_symbol(&f.name, target, out);
    out.append(":\n");
    let ghost head = out@;
    let mut i: usize = 0;
    while i < f.body.len()
        invariant
            i <= f.body@.len(),
            out@ == head + body_text(f.body@.take(i as int)),
        decreases f.body@.len() - i,
    {
        emit_instruction(f.body[i], out);
        proof {
            let t = f.body@.take(i + 1);
            assert(t.drop_last() =~= f.body@.take(i as int));
            assert(t.last() == f.body@[i as int]);
        }
        i = i + 1;
        assert(out@ =~= head + body_text(f.body@.take(i as int)));
    }
    assert(f.body@.take(i as int) =~= f.body@);
    assert(out@ =~= old(out)@ + function_text(*f, target));
}

/// The emitter: the program to emit, the platform and the text so far.
pub struct Codegen<'input> {
    input: &'input X86,
    target: Target,
    output: String,
}

impl<'input> Codegen<'input> {
    pub closed spec fn input_spec(&self) -> X86 {
        *self.input
    }

    pub closed spec fn target_spec(&self) -> Target {
        self.target
    }

    pub closed spec fn output_spec(&self) -> Seq<char> {
        self.output@
    }

    pub fn new(input: &'input X86, target: Target) -> (r: Codegen<'input>)
        ensures
            r.input_spec() == *input,
            r.target_spec() == target,
            r.output_spec() == Seq::<char>::empty(),
    {
        Codegen { input, target, output: String::new() }
    }

    /// Appends the assembly text of the program to the output.
    pub fn emit(&mut self)
        ensures
            final(self).input_spec() == old(self).input_spec(),
            final(self).target_spec() == old(self).target_spec(),
            final(self).output_spec() == old(self).output_spec() + assembly_text(
                old(self).input_spec(),
                old(self).target_spec(),
            ),
    {
        emit_program(&self.input.nodes, self.target, &mut self.output);
        self.emit_footer();
        assert(self.output@ =~= old(self).output@ + assembly_text(*self.input, self.target));
    }

    /// The assembly text of `input` for `target`.
    pub fn emit_from_input(input: &X86, target: Target) -> (r: Result<String, CodegenError>)
        ensures
            r matches Ok(s) && s@ == assembly_text(*input, target),
    {
        let mut codegen = Codegen::new(input, target);
        codegen.emit();
        Ok(codegen.output)
    }

    pub fn output(&self) -> (r: &str)
        ensures
            r@ == self.output_spec(),
    {
        self.output.as_str()
    }

    fn emit_footer(&mut self)
        ensures
            final(self).input == old(self).input,
            final(self).target == old(self).target,
            final(self).output@ == old(self).output@ + footer_text(old(self).target),
    {
        if self.target.stack_note {
            self.output.append("\n.section .note.GNU-stack,\"\",@progbits\n");
        } else {
            assert(self.output@ =~= old(self).output@ + footer_text(self.target));
        }
    }
}

fn emit_program(p: &Program, target: Target, out: &mut String)
    ensures
        final(out)@ == old(out)@ + function_text(p.main, target),
{
    emit_function(&p.main, target, out);
}

} // verus!
