//! Instructions of the target assembly and their textual form.

use vstd::prelude::*;
use crate::ast::{BinaryOperation, CoreType, UnaryOperation};

verus! {

/// The text of a decimal digit.
pub open spec fn digit_text(d: nat) -> Seq<char> {
    if d == 0 { "0"@ } else if d == 1 { "1"@ } else if d == 2 { "2"@ } else if d == 3 { "3"@ }
    else if d == 4 { "4"@ } else if d == 5 { "5"@ } else if d == 6 { "6"@ } else if d == 7 { "7"@ }
    else if d == 8 { "8"@ } else { "9"@ }
}

/// The decimal notation of `n`.
pub open spec fn decimal(n: nat) -> Seq<char>
    decreases n,
{
    if n < 10 {
        digit_text(n)
    } else {
        decimal(n / 10) + digit_text(n % 10)
    }
}

/// The name of register `n`: `r0`, `r1`, ...
pub open spec fn register_text(n: u64) -> Seq<char> {
    "r"@ + decimal(n as nat)
}

/// `parts` separated by single spaces.
pub open spec fn join_spaced(parts: Seq<Seq<char>>) -> Seq<char>
    decreases parts.len(),
{
    if parts.len() == 0 {
        Seq::empty()
    } else if parts.len() == 1 {
        parts[0]
    } else {
        join_spaced(parts.drop_last()) + " "@ + parts.last()
    }
}

/// Each of `parts` followed by a space.
pub open spec fn each_then_space(parts: Seq<Seq<char>>) -> Seq<char>
    decreases parts.len(),
{
    if parts.len() == 0 {
        Seq::empty()
    } else {
        each_then_space(parts.drop_last()) + parts.last() + " "@
    }
}

/// Each of `parts` preceded by a space.
pub open spec fn space_then_each(parts: Seq<Seq<char>>) -> Seq<char>
    decreases parts.len(),
{
    if parts.len() == 0 {
        Seq::empty()
    } else {
        space_then_each(parts.drop_last()) + " "@ + parts.last()
    }
}

fn digit_str(d: u64) -> (r: &'static str)
    requires
        d < 10,
    ensures
        r@ == digit_text(d as nat),
{
    if d == 0 { "0" } else if d == 1 { "1" } else if d == 2 { "2" } else if d == 3 { "3" }
    else if d == 4 { "4" } else if d == 5 { "5" } else if d == 6 { "6" } else if d == 7 { "7" }
    else if d == 8 { "8" } else { "9" }
}

/// The decimal notation of `n`.
pub fn decimal_string(n: u64) -> (r: String)
    ensures
        r@ == decimal(n as nat),
    decreases n,
{
    if n < 10 {
        String::from_str(digit_str(n))
    } else {
        let mut s = decimal_string(n / 10);
        s.append(digit_str(n % 10));
        s
    }
}

/// The name of register `n`.
pub fn register_name(n: u64) -> (r: String)
    ensures
        r@ == register_text(n),
{
    let mut s = String::from_str("r");
    let d = decimal_string(n);
    s.append(d.as_str());
    s
}

/// `parts` separated by single spaces.
pub fn join_with_spaces(parts: &Vec<String>) -> (r: String)
    ensures
        r@ == join_spaced(parts@.map_values(|p: String| p@)),
{
    let ghost views = parts@.map_values(|p: String| p@);
    let mut out = String::new();
    let mut i: usize = 0;
    while i < parts.len()
        invariant
            i <= parts.len(),
            views == parts@.map_values(|p: String| p@),
            out@ == join_spaced(views.subrange(0, i as int)),
        decreases parts.len() - i,
    {
        assert(views.subrange(0, i + 1).drop_last() =~= views.subrange(0, i as int));
        if i > 0 {
            out.append(" ");
        }
        out.append(parts[i].as_str());
        i = i + 1;
    }
    assert(views.subrange(0, parts.len() as int) =~= views);
    out
}

/// The opcode of a binary operator.
pub open spec fn binary_opcode(op: BinaryOperation) -> Seq<char> {
    match op {
        BinaryOperation::Add => "add"@,
        BinaryOperation::AddWrapped => "add.w"@,
        BinaryOperation::And => "and"@,
        BinaryOperation::BitwiseAnd => "and"@,
        BinaryOperation::Div => "div"@,
        BinaryOperation::DivWrapped => "div.w"@,
        BinaryOperation::Eq => "is.eq"@,
        BinaryOperation::Gte => "gte"@,
        BinaryOperation::Gt => "gt"@,
        BinaryOperation::Lte => "lte"@,
        BinaryOperation::Lt => "lt"@,
        BinaryOperation::Mod => "mod"@,
        BinaryOperation::Mul => "mul"@,
        BinaryOperation::MulWrapped => "mul.w"@,
        BinaryOperation::Nand => "nand"@,
        BinaryOperation::Neq => "is.neq"@,
        BinaryOperation::Nor => "nor"@,
        BinaryOperation::Or => "or"@,
        BinaryOperation::BitwiseOr => "or"@,
        BinaryOperation::Pow => "pow"@,
        BinaryOperation::PowWrapped => "pow.w"@,
        BinaryOperation::Rem => "rem"@,
        BinaryOperation::RemWrapped => "rem.w"@,
        BinaryOperation::Shl => "shl"@,
        BinaryOperation::ShlWrapped => "shl.w"@,
        BinaryOperation::Shr => "shr"@,
        BinaryOperation::ShrWrapped => "shr.w"@,
        BinaryOperation::Sub => "sub"@,
        BinaryOperation::SubWrapped => "sub.w"@,
        BinaryOperation::Xor => "xor"@,
    }
}

/// The opcode of a unary operator.
pub open spec fn unary_opcode(op: UnaryOperation) -> Seq<char> {
    match op {
        UnaryOperation::Abs => "abs"@,
        UnaryOperation::AbsWrapped => "abs.w"@,
        UnaryOperation::Double => "double"@,
        UnaryOperation::Inverse => "inv"@,
        UnaryOperation::Not => "not"@,
        UnaryOperation::Negate => "neg"@,
        UnaryOperation::Square => "square"@,
        UnaryOperation::SquareRoot => "sqrt"@,
    }
}

/// The opcode of a core type's associated function.
pub open spec fn core_opcode(ty: CoreType) -> Seq<char> {
    match ty {
        CoreType::BHP256 => "bhp256"@,
        CoreType::BHP512 => "bhp512"@,
        CoreType::BHP768 => "bhp768"@,
        CoreType::BHP1024 => "bhp1024"@,
        CoreType::Pedersen64 => "ped64"@,
        CoreType::Pedersen128 => "ped128"@,
        CoreType::Poseidon2 => "psd2"@,
        CoreType::Poseidon4 => "psd4"@,
        CoreType::Poseidon8 => "psd8"@,
    }
}

pub fn binary_opcode_str(op: BinaryOperation) -> (r: &'static str)
    ensures
        r@ == binary_opcode(op),
{
    match op {
        BinaryOperation::Add => "add",
        BinaryOperation::AddWrapped => "add.w",
        BinaryOperation::And => "and",
        BinaryOperation::BitwiseAnd => "and",
        BinaryOperation::Div => "div",
        BinaryOperation::DivWrapped => "div.w",
        BinaryOperation::Eq => "is.eq",
        BinaryOperation::Gte => "gte",
        BinaryOperation::Gt => "gt",
        BinaryOperation::Lte => "lte",
        BinaryOperation::Lt => "lt",
        BinaryOperation::Mod => "mod",
        BinaryOperation::Mul => "mul",
        BinaryOperation::MulWrapped => "mul.w",
        BinaryOperation::Nand => "nand",
        BinaryOperation::Neq => "is.neq",
        BinaryOperation::Nor => "nor",
        BinaryOperation::Or => "or",
        BinaryOperation::BitwiseOr => "or",
        BinaryOperation::Pow => "pow",
        BinaryOperation::PowWrapped => "pow.w",
        BinaryOperation::Rem => "rem",
        BinaryOperation::RemWrapped => "rem.w",
        BinaryOperation::Shl => "shl",
        BinaryOperation::ShlWrapped => "shl.w",
        BinaryOperation::Shr => "shr",
        BinaryOperation::ShrWrapped => "shr.w",
        BinaryOperation::Sub => "sub",
        BinaryOperation::SubWrapped => "sub.w",
        BinaryOperation::Xor => "xor",
    }
}

pub fn unary_opcode_str(op: UnaryOperation) -> (r: &'static str)
    ensures
        r@ == unary_opcode(op),
{
    match op {
        UnaryOperation::Abs => "abs",
        UnaryOperation::AbsWrapped => "abs.w",
        UnaryOperation::Double => "double",
        UnaryOperation::Inverse => "inv",
        UnaryOperation::Not => "not",
        UnaryOperation::Negate => "neg",
        UnaryOperation::Square => "square",
        UnaryOperation::SquareRoot => "sqrt",
    }
}

pub fn core_opcode_str(ty: CoreType) -> (r: &'static str)
    ensures
        r@ == core_opcode(ty),
{
    match ty {
        CoreType::BHP256 => "bhp256",
        CoreType::BHP512 => "bhp512",
        CoreType::BHP768 => "bhp768",
        CoreType::BHP1024 => "bhp1024",
        CoreType::Pedersen64 => "ped64",
        CoreType::Pedersen128 => "ped128",
        CoreType::Poseidon2 => "psd2",
        CoreType::Poseidon4 => "psd4",
        CoreType::Poseidon8 => "psd8",
    }
}

/// The strings of `v`, as character sequences.
pub open spec fn texts(v: Seq<String>) -> Seq<Seq<char>> {
    v.map_values(|p: String| p@)
}

/// One instruction of the target assembly.
pub enum Instruction {
    /// `op left right into destination;`
    Binary { op: BinaryOperation, left: String, right: String, destination: u64 },
    /// `op operand into destination;`
    Unary { op: UnaryOperation, operand: String, destination: u64 },
    /// `ternary condition if_true if_false into destination;`
    Ternary { condition: String, if_true: String, if_false: String, destination: u64 },
    /// `cast operands... into destination as target_type;`
    Cast { operands: Vec<String>, destination: u64, target_type: String },
    /// `function.opcode args... into destination;`, a core type's function.
    Associated { function: String, core: CoreType, args: Vec<String>, destination: u64 },
    /// `call callee args... [into destinations...];`
    Call { callee: String, args: Vec<String>, destinations: Vec<u64> },
}

/// An instruction with its strings and lists as sequences.
pub enum InstructionView {
    Binary { op: BinaryOperation, left: Seq<char>, right: Seq<char>, destination: u64 },
    Unary { op: UnaryOperation, operand: Seq<char>, destination: u64 },
    Ternary { condition: Seq<char>, if_true: Seq<char>, if_false: Seq<char>, destination: u64 },
    Cast { operands: Seq<Seq<char>>, destination: u64, target_type: Seq<char> },
    Associated { function: Seq<char>, core: CoreType, args: Seq<Seq<char>>, destination: u64 },
    Call { callee: Seq<char>, args: Seq<Seq<char>>, destinations: Seq<u64> },
}

impl View for Instruction {
    type V = InstructionView;

    open spec fn view(&self) -> InstructionView {
        match self {
            Instruction::Binary { op, left, right, destination } => InstructionView::Binary {
                op: *op,
                left: left@,
                right: right@,
                destination: *destination,
            },
            Instruction::Unary { op, operand, destination } => InstructionView::Unary {
                op: *op,
                operand: operand@,
                destination: *destination,
            },
            Instruction::Ternary { condition, if_true, if_false, destination } => InstructionView::Ternary {
                condition: condition@,
                if_true: if_true@,
                if_false: if_false@,
                destination: *destination,
            },
            Instruction::Cast { operands, destination, target_type } => InstructionView::Cast {
                operands: texts(operands@),
                destination: *destination,
                target_type: target_type@,
            },
            Instruction::Associated { function, core, args, destination } => InstructionView::Associated {
                function: function@,
                core: *core,
                args: texts(args@),
                destination: *destination,
            },
            Instruction::Call { callee, args, destinations } => InstructionView::Call {
                callee: callee@,
                args: texts(args@),
                destinations: destinations@,
            },
        }
    }
}

/// The registers an instruction writes, in order.
pub open spec fn destinations(i: InstructionView) -> Seq<u64> {
    match i {
        InstructionView::Binary { destination, .. } => seq![destination],
        InstructionView::Unary { destination, .. } => seq![destination],
        InstructionView::Ternary { destination, .. } => seq![destination],
        InstructionView::Cast { destination, .. } => seq![destination],
        InstructionView::Associated { destination, .. } => seq![destination],
        InstructionView::Call { destinations, .. } => destinations,
    }
}

/// The registers a sequence of instructions writes, in order.
pub open spec fn all_destinations(instrs: Seq<InstructionView>) -> Seq<u64>
    decreases instrs.len(),
{
    if instrs.len() == 0 {
        Seq::empty()
    } else {
        all_destinations(instrs.drop_last()) + destinations(instrs.last())
    }
}

/// The line of text of an instruction.
pub open spec fn instruction_text(i: InstructionView) -> Seq<char> {
    match i {
        InstructionView::Binary { op, left, right, destination } => "    "@ + binary_opcode(op) + " "@
            + left + " "@ + right + " into "@ + register_text(destination) + ";\n"@,
        InstructionView::Unary { op, operand, destination } => "    "@ + unary_opcode(op) + " "@
            + operand + " into "@ + register_text(destination) + ";\n"@,
        InstructionView::Ternary { condition, if_true, if_false, destination } => "    "@ + "ternary "@
            + condition + " "@ + if_true + " "@ + if_false + " into "@ + register_text(destination)
            + ";\n"@,
        InstructionView::Cast { operands, destination, target_type } => "    "@ + "cast "@ + each_then_space(
            operands,
        ) + "into "@ + register_text(destination) + " as "@ + target_type + ";\n"@,
        InstructionView::Associated { function, core, args, destination } => "    "@ + function + "."@
            + core_opcode(core) + " "@ + each_then_space(args) + "into "@ + register_text(
            destination,
        ) + ";\n"@,
        InstructionView::Call { callee, args, destinations } => "    "@ + "call "@ + callee
            + space_then_each(args) + if destinations.len() == 0 {
            ";\n"@
        } else {
            " into "@ + join_spaced(destinations.map_values(|d: u64| register_text(d))) + ";\n"@
        },
    }
}

/// The text of a sequence of instructions.
pub open spec fn program_text(instrs: Seq<InstructionView>) -> Seq<char>
    decreases instrs.len(),
{
    if instrs.len() == 0 {
        Seq::empty()
    } else {
        program_text(instrs.drop_last()) + instruction_text(instrs.last())
    }
}

fn append_each_then_space(out: &mut String, parts: &Vec<String>)
    ensures
        final(out)@ == old(out)@ + each_then_space(texts(parts@)),
{
    let ghost start = out@;
    let ghost views = texts(parts@);
    let mut i: usize = 0;
    while i < parts.len()
        invariant
            i <= parts.len(),
            views == texts(parts@),
            out@ == start + each_then_space(views.subrange(0, i as int)),
        decreases parts.len() - i,
    {
        assert(views.subrange(0, i + 1).drop_last() =~= views.subrange(0, i as int));
        out.append(parts[i].as_str());
        out.append(" ");
        i = i + 1;
        assert(out@ =~= start + each_then_space(views.subrange(0, i as int)));
    }
    assert(views.subrange(0, parts.len() as int) =~= views);
}

fn append_space_then_each(out: &mut String, parts: &Vec<String>)
    ensures
        final(out)@ == old(out)@ + space_then_each(texts(parts@)),
{
    let ghost start = out@;
    let ghost views = texts(parts@);
    let mut i: usize = 0;
    while i < parts.len()
        invariant
            i <= parts.len(),
            views == texts(parts@),
            out@ == start + space_then_each(views.subrange(0, i as int)),
        decreases parts.len() - i,
    {
        assert(views.subrange(0, i + 1).drop_last() =~= views.subrange(0, i as int));
        out.append(" ");
        out.append(parts[i].as_str());
        i = i + 1;
        assert(out@ =~= start + space_then_each(views.subrange(0, i as int)));
    }
    assert(views.subrange(0, parts.len() as int) =~= views);
}

/// The register names of `regs`, separated by single spaces.
pub fn join_registers(regs: &Vec<u64>) -> (r: String)
    ensures
        r@ == join_spaced(regs@.map_values(|d: u64| register_text(d))),
{
    let ghost views = regs@.map_values(|d: u64| register_text(d));
    let mut out = String::new();
    let mut i: usize = 0;
    while i < regs.len()
        invariant
            i <= regs.len(),
            views == regs@.map_values(|d: u64| register_text(d)),
            out@ == join_spaced(views.subrange(0, i as int)),
        decreases regs.len() - i,
    {
        assert(views.subrange(0, i + 1).drop_last() =~= views.subrange(0, i as int));
        if i > 0 {
            out.append(" ");
        }
        let name = register_name(regs[i]);
        out.append(name.as_str());
        i = i + 1;
    }
    assert(views.subrange(0, regs.len() as int) =~= views);
    out
}

impl Instruction {
    /// The line of text of this instruction.
    pub fn to_text(&self) -> (r: String)
        ensures
            r@ == instruction_text(self@),
    {
        let mut out = String::from_str("    ");
        match self {
            Instruction::Binary { op, left, right, destination } => {
                out.append(binary_opcode_str(*op));
                out.append(" ");
                out.append(left.as_str());
                out.append(" ");
                out.append(right.as_str());
                out.append(" into ");
                out.append(register_name(*destination).as_str());
                out.append(";\n");
                assert(out@ =~= instruction_text(self@));
            },
            Instruction::Unary { op, operand, destination } => {
                out.append(unary_opcode_str(*op));
                out.append(" ");
                out.append(operand.as_str());
                out.append(" into ");
                out.append(register_name(*destination).as_str());
                out.append(";\n");
                assert(out@ =~= instruction_text(self@));
            },
            Instruction::Ternary { condition, if_true, if_false, destination } => {
                out.append("ternary ");
                out.append(condition.as_str());
                out.append(" ");
                out.append(if_true.as_str());
                out.append(" ");
                out.append(if_false.as_str());
                out.append(" into ");
                out.append(register_name(*destination).as_str());
                out.append(";\n");
                assert(out@ =~= instruction_text(self@));
            },
            Instruction::Cast { operands, destination, target_type } => {
                out.append("cast ");
                append_each_then_space(&mut out, operands);
                out.append("into ");
                out.append(register_name(*destination).as_str());
                out.append(" as ");
                out.append(target_type.as_str());
                out.append(";\n");
                assert(out@ =~= instruction_text(self@));
            },
            Instruction::Associated { function, core, args, destination } => {
                out.append(function.as_str());
                out.append(".");
                out.append(core_opcode_str(*core));
                out.append(" ");
                append_each_then_space(&mut out, args);
                out.append("into ");
                out.append(register_name(*destination).as_str());
                out.append(";\n");
                assert(out@ =~= instruction_text(self@));
            },
            Instruction::Call { callee, args, destinations } => {
                out.append("call ");
                out.append(callee.as_str());
                append_space_then_each(&mut out, args);
                if destinations.len() == 0 {
                    out.append(";\n");
                } else {
                    out.append(" into ");
                    out.append(join_registers(destinations).as_str());
                    out.append(";\n");
                }
                assert(out@ =~= instruction_text(self@));
            },
        }
        proof {
            assert(out@ =~= instruction_text(self@));
        }
        out
    }
}

/// The text of a sequence of instructions, one line each, in order.
pub fn render(instrs: &Vec<Instruction>) -> (r: String)
    ensures
        r@ == program_text(instrs@.map_values(|i: Instruction| i@)),
{
    let ghost views = instrs@.map_values(|i: Instruction| i@);
    let mut out = String::new();
    let mut k: usize = 0;
    while k < instrs.len()
        invariant
            k <= instrs.len(),
            views == instrs@.map_values(|i: Instruction| i@),
            out@ == program_text(views.subrange(0, k as int)),
        decreases instrs.len() - k,
    {
        assert(views.subrange(0, k + 1).drop_last() =~= views.subrange(0, k as int));
        let line = instrs[k].to_text();
        out.append(line.as_str());
        k = k + 1;
    }
    assert(views.subrange(0, instrs.len() as int) =~= views);
    out
}

} // verus!
