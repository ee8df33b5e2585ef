//! Lowering of expressions into instructions of the target assembly.
//!
//! Every expression lowers to a value reference (where its result lives) and
//! the instructions that must run before that reference is valid. Registers
//! are numbered from a counter that only ever grows.

use vstd::prelude::*;
use crate::ast::{
    AccessExpression, BinaryOperation, CallExpression, Expression, StructExpression, StructVariableInitializer, Type,
};
use crate::instruction::{
    all_destinations, destinations, join_spaced, join_with_spaces, program_text, register_name, register_text, render,
    texts, Instruction, InstructionView,
};

verus! {

/// A function known to the symbol table, with its declared output type.
#[derive(Debug)]
pub struct FunctionSymbol {
    pub name: String,
    pub output_type: Type,
}

/// A struct or record type; a record carries a visibility tag.
pub struct CompositeSymbol {
    pub name: String,
    pub is_record: bool,
    pub visibility: String,
}

/// What earlier passes computed and code generation reads: the functions, the
/// composite types, and the storage of each variable. Each is a list of
/// entries looked up by name; where a name has several entries, the first
/// one counts and the later ones are shadowed.
pub struct Environment {
    pub functions: Vec<FunctionSymbol>,
    pub composite_mapping: Vec<CompositeSymbol>,
    pub variable_mapping: Vec<(String, String)>,
}

/// Why an expression could not be lowered. Each marks a shape that earlier
/// passes rule out, or a construct the target cannot express yet.
#[derive(Debug, PartialEq, Eq)]
pub enum CodegenError {
    /// A variable with no storage in the mapping.
    UnmappedVariable(String),
    /// A struct or record type that the symbol table does not know.
    UnknownComposite(String),
    /// A called function that the symbol table does not know.
    UnknownFunction(String),
    /// An associated function on a type other than a core type.
    UnknownCoreType,
    /// A tuple output type with fewer than two elements.
    ShortTupleType,
    /// A unit expression.
    UnitExpression,
    /// A placeholder left by a failed parse.
    ErrorExpression,
    /// An associated constant or a tuple field access.
    UnsupportedAccess,
    /// The register counter would pass its largest value.
    RegisterOverflow,
}

/// The storage of `name`: the first entry for it.
pub open spec fn lookup_variable(m: Seq<(String, String)>, name: Seq<char>) -> Option<String>
    decreases m.len(),
{
    if m.len() == 0 {
        None
    } else if m[0].0@ == name {
        Some(m[0].1)
    } else {
        lookup_variable(m.subrange(1, m.len() as int), name)
    }
}

/// The first composite type named `name`.
pub open spec fn lookup_composite(m: Seq<CompositeSymbol>, name: Seq<char>) -> Option<CompositeSymbol>
    decreases m.len(),
{
    if m.len() == 0 {
        None
    } else if m[0].name@ == name {
        Some(m[0])
    } else {
        lookup_composite(m.subrange(1, m.len() as int), name)
    }
}

/// The output type of the first function named `name`.
pub open spec fn lookup_function(m: Seq<FunctionSymbol>, name: Seq<char>) -> Option<Type>
    decreases m.len(),
{
    if m.len() == 0 {
        None
    } else if m[0].name@ == name {
        Some(m[0].output_type)
    } else {
        lookup_function(m.subrange(1, m.len() as int), name)
    }
}

/// The result of lowering one expression: its value reference (one entry,
/// several for a tuple, none for a call without output), the instructions,
/// and the next free register.
pub struct LoweredView {
    pub value: Seq<Seq<char>>,
    pub instructions: Seq<InstructionView>,
    pub next: u64,
}

/// The result of lowering a list of operands: the text of each, the
/// instructions of all in order, and the next free register.
pub struct OperandsView {
    pub operands: Seq<Seq<char>>,
    pub instructions: Seq<InstructionView>,
    pub next: u64,
}

/// The registers `start`, `start + 1`, ..., `n` of them.
pub open spec fn register_run(start: u64, n: nat) -> Seq<u64> {
    Seq::new(n, |i: int| (start + i) as u64)
}

/// The callee as written in a call instruction.
pub open spec fn callee_text(c: CallExpression) -> Seq<char> {
    match c.external {
        Some(program) => program@ + ".aleo/"@ + c.function@,
        None => c.function@,
    }
}

/// The type name a cast into the composite type names.
pub open spec fn composite_text(s: StructExpression, c: CompositeSymbol) -> Seq<char> {
    if c.is_record {
        s.name@ + "."@ + c.visibility@
    } else {
        s.name@
    }
}

/// The lowering that ends in `i`, which writes the fresh register `next`.
pub open spec fn with_register(
    instructions: Seq<InstructionView>,
    next: u64,
    i: InstructionView,
) -> Result<LoweredView, CodegenError> {
    if next == u64::MAX {
        Err(CodegenError::RegisterOverflow)
    } else {
        Ok(
            LoweredView {
                value: seq![register_text(next)],
                instructions: instructions.push(i),
                next: (next + 1) as u64,
            },
        )
    }
}

/// The lowering of a call once its arguments are lowered.
pub open spec fn lower_call_output(env: Environment, c: CallExpression, o: OperandsView) -> Result<
    LoweredView,
    CodegenError,
> {
    match lookup_function(env.functions@, c.function@) {
        None => Err(CodegenError::UnknownFunction(c.function)),
        Some(Type::Unit) => Ok(
            LoweredView {
                value: seq![],
                instructions: o.instructions.push(
                    InstructionView::Call {
                        callee: callee_text(c),
                        args: o.operands,
                        destinations: seq![],
                    },
                ),
                next: o.next,
            },
        ),
        Some(Type::Tuple(elements)) => {
            let n = elements@.len();
            if n < 2 {
                Err(CodegenError::ShortTupleType)
            } else if o.next + n > u64::MAX {
                Err(CodegenError::RegisterOverflow)
            } else {
                Ok(
                    LoweredView {
                        value: register_run(o.next, n).map_values(|d: u64| register_text(d)),
                        instructions: o.instructions.push(
                            InstructionView::Call {
                                callee: callee_text(c),
                                args: o.operands,
                                destinations: register_run(o.next, n),
                            },
                        ),
                        next: (o.next + n) as u64,
                    },
                )
            }
        },
        Some(_) => with_register(
            o.instructions,
            o.next,
            InstructionView::Call {
                callee: callee_text(c),
                args: o.operands,
                destinations: seq![o.next],
            },
        ),
    }
}

/// Lowering of `e` with registers from `next` on.
pub open spec fn lower(env: Environment, e: Expression, next: u64) -> Result<LoweredView, CodegenError>
    decreases e,
{
    match e {
        Expression::Identifier(name) => match lookup_variable(env.variable_mapping@, name@) {
            Some(storage) => Ok(LoweredView { value: seq![storage@], instructions: seq![], next }),
            None => Err(CodegenError::UnmappedVariable(name)),
        },
        Expression::Literal(text) => Ok(LoweredView { value: seq![text@], instructions: seq![], next }),
        Expression::Binary { left, op, right } => match lower(env, *left, next) {
            Err(x) => Err(x),
            Ok(l) => match lower(env, *right, l.next) {
                Err(x) => Err(x),
                Ok(r) => with_register(
                    l.instructions + r.instructions,
                    r.next,
                    InstructionView::Binary {
                        op,
                        left: join_spaced(l.value),
                        right: join_spaced(r.value),
                        destination: r.next,
                    },
                ),
            },
        },
        Expression::Unary { op, receiver } => match lower(env, *receiver, next) {
            Err(x) => Err(x),
            Ok(l) => with_register(
                l.instructions,
                l.next,
                InstructionView::Unary { op, operand: join_spaced(l.value), destination: l.next },
            ),
        },
        Expression::Ternary { condition, if_true, if_false } => match lower(env, *condition, next) {
            Err(x) => Err(x),
            Ok(c) => match lower(env, *if_true, c.next) {
                Err(x) => Err(x),
                Ok(t) => match lower(env, *if_false, t.next) {
                    Err(x) => Err(x),
                    Ok(f) => with_register(
                        c.instructions + t.instructions + f.instructions,
                        f.next,
                        InstructionView::Ternary {
                            condition: join_spaced(c.value),
                            if_true: join_spaced(t.value),
                            if_false: join_spaced(f.value),
                            destination: f.next,
                        },
                    ),
                },
            },
        },
        Expression::Struct(s) => match lookup_composite(env.composite_mapping@, s.name@) {
            None => Err(CodegenError::UnknownComposite(s.name)),
            Some(c) => match lower_members(env, s.members@, next) {
                Err(x) => Err(x),
                Ok(o) => with_register(
                    o.instructions,
                    o.next,
                    InstructionView::Cast {
                        operands: o.operands,
                        destination: o.next,
                        target_type: composite_text(s, c),
                    },
                ),
            },
        },
        Expression::Access(AccessExpression::Member { inner, name }) => match lower(env, *inner, next) {
            Err(x) => Err(x),
            Ok(i) => Ok(
                LoweredView {
                    value: seq![join_spaced(i.value) + "."@ + name@],
                    instructions: i.instructions,
                    next: i.next,
                },
            ),
        },
        Expression::Access(AccessExpression::AssociatedFunction { ty, name, args }) => match ty {
            Type::Core(core) => match lower_operands(env, args@, next) {
                Err(x) => Err(x),
                Ok(o) => with_register(
                    o.instructions,
                    o.next,
                    InstructionView::Associated {
                        function: name@,
                        core,
                        args: o.operands,
                        destination: o.next,
                    },
                ),
            },
            _ => Err(CodegenError::UnknownCoreType),
        },
        Expression::Access(_) => Err(CodegenError::UnsupportedAccess),
        Expression::Call(c) => match lower_operands(env, c.arguments@, next) {
            Err(x) => Err(x),
            Ok(o) => lower_call_output(env, c, o),
        },
        Expression::Tuple(elements) => match lower_operands(env, elements@, next) {
            Err(x) => Err(x),
            Ok(o) => Ok(LoweredView { value: o.operands, instructions: o.instructions, next: o.next }),
        },
        Expression::Unit => Err(CodegenError::UnitExpression),
        Expression::Error => Err(CodegenError::ErrorExpression),
    }
}

/// Lowering of `es` left to right, each to one operand text.
pub open spec fn lower_operands(env: Environment, es: Seq<Expression>, next: u64) -> Result<
    OperandsView,
    CodegenError,
>
    decreases es,
{
    if es.len() == 0 {
        Ok(OperandsView { operands: seq![], instructions: seq![], next })
    } else {
        match lower_operands(env, es.subrange(0, es.len() - 1), next) {
            Err(x) => Err(x),
            Ok(p) => match lower(env, es[es.len() - 1], p.next) {
                Err(x) => Err(x),
                Ok(l) => Ok(
                    OperandsView {
                        operands: p.operands.push(join_spaced(l.value)),
                        instructions: p.instructions + l.instructions,
                        next: l.next,
                    },
                ),
            },
        }
    }
}

/// Lowering of struct members left to right; a shorthand member is the
/// storage of the variable of its name.
pub open spec fn lower_members(env: Environment, ms: Seq<StructVariableInitializer>, next: u64) -> Result<
    OperandsView,
    CodegenError,
>
    decreases ms,
{
    if ms.len() == 0 {
        Ok(OperandsView { operands: seq![], instructions: seq![], next })
    } else {
        match lower_members(env, ms.subrange(0, ms.len() - 1), next) {
            Err(x) => Err(x),
            Ok(p) => match ms[ms.len() - 1].expression {
                Some(e) => match lower(env, e, p.next) {
                    Err(x) => Err(x),
                    Ok(l) => Ok(
                        OperandsView {
                            operands: p.operands.push(join_spaced(l.value)),
                            instructions: p.instructions + l.instructions,
                            next: l.next,
                        },
                    ),
                },
                None => match lookup_variable(env.variable_mapping@, ms[ms.len() - 1].identifier@) {
                    Some(storage) => Ok(
                        OperandsView {
                            operands: p.operands.push(storage@),
                            instructions: p.instructions,
                            next: p.next,
                        },
                    ),
                    None => Err(CodegenError::UnmappedVariable(ms[ms.len() - 1].identifier)),
                },
            },
        }
    }
}

/// The views of a list of instructions.
pub open spec fn instruction_views(v: Seq<Instruction>) -> Seq<InstructionView> {
    v.map_values(|i: Instruction| i@)
}

/// The executable result of lowering one expression.
pub struct Lowered {
    /// Where the value lives: one reference, one per tuple element, or none.
    pub value: Vec<String>,
    /// The instructions to run first, in order.
    pub instructions: Vec<Instruction>,
}

/// `r` is what `s` describes, with the counter ending at `next`.
pub open spec fn agrees(r: Result<Lowered, CodegenError>, s: Result<LoweredView, CodegenError>, next: u64) -> bool {
    match s {
        Ok(l) => {
            &&& r is Ok
            &&& texts(r->Ok_0.value@) == l.value
            &&& instruction_views(r->Ok_0.instructions@) == l.instructions
            &&& next == l.next
        },
        Err(x) => r == Err::<Lowered, CodegenError>(x),
    }
}

/// `r` is the operands and instructions `s` describes, with the counter
/// ending at `next`.
pub open spec fn agrees_operands(
    r: Result<(Vec<String>, Vec<Instruction>), CodegenError>,
    s: Result<OperandsView, CodegenError>,
    next: u64,
) -> bool {
    match s {
        Ok(o) => {
            &&& r is Ok
            &&& texts(r->Ok_0.0@) == o.operands
            &&& instruction_views(r->Ok_0.1@) == o.instructions
            &&& next == o.next
        },
        Err(x) => r == Err::<(Vec<String>, Vec<Instruction>), CodegenError>(x),
    }
}

proof fn lemma_views_concat(a: Seq<Instruction>, b: Seq<Instruction>)
    ensures
        instruction_views(a + b) == instruction_views(a) + instruction_views(b),
{
    assert(instruction_views(a + b) =~= instruction_views(a) + instruction_views(b));
}

/// A failure in a prefix of the operands is the failure of the whole list.
proof fn lemma_operands_prefix_err(env: Environment, es: Seq<Expression>, k: int, next: u64)
    requires
        0 <= k <= es.len(),
        lower_operands(env, es.subrange(0, k), next) is Err,
    ensures
        lower_operands(env, es, next) == lower_operands(env, es.subrange(0, k), next),
    decreases es.len() - k,
{
    if k < es.len() {
        let longer = es.subrange(0, k + 1);
        assert(longer.subrange(0, longer.len() - 1) =~= es.subrange(0, k));
        lemma_operands_prefix_err(env, es, k + 1, next);
    } else {
        assert(es.subrange(0, k) =~= es);
    }
}

/// A failure in a prefix of the members is the failure of the whole list.
proof fn lemma_members_prefix_err(env: Environment, ms: Seq<StructVariableInitializer>, k: int, next: u64)
    requires
        0 <= k <= ms.len(),
        lower_members(env, ms.subrange(0, k), next) is Err,
    ensures
        lower_members(env, ms, next) == lower_members(env, ms.subrange(0, k), next),
    decreases ms.len() - k,
{
    if k < ms.len() {
        let longer = ms.subrange(0, k + 1);
        assert(longer.subrange(0, longer.len() - 1) =~= ms.subrange(0, k));
        lemma_members_prefix_err(env, ms, k + 1, next);
    } else {
        assert(ms.subrange(0, k) =~= ms);
    }
}

/// A value reference of one entry.
fn single(s: String) -> (r: Vec<String>)
    ensures
        texts(r@) == seq![s@],
{
    let r = vec![s];
    assert(texts(r@) =~= seq![s@]);
    r
}

fn empty_instructions() -> (r: Vec<Instruction>)
    ensures
        instruction_views(r@) == Seq::<InstructionView>::empty(),
{
    let r: Vec<Instruction> = Vec::new();
    assert(instruction_views(r@) =~= Seq::<InstructionView>::empty());
    r
}

/// The storage of `name` in `m`.
fn storage_of(m: &Vec<(String, String)>, name: &String) -> (r: Option<String>)
    ensures
        r == lookup_variable(m@, name@),
{
    let mut i: usize = 0;
    assert(m@.subrange(0, m@.len() as int) =~= m@);
    while i < m.len()
        invariant
            i <= m.len(),
            lookup_variable(m@, name@) == lookup_variable(m@.subrange(i as int, m@.len() as int), name@),
        decreases m.len() - i,
    {
        let ghost rest = m@.subrange(i as int, m@.len() as int);
        assert(rest.subrange(1, rest.len() as int) =~= m@.subrange(i + 1, m@.len() as int));
        if m[i].0 == *name {
            return Some(m[i].1.clone());
        }
        i = i + 1;
    }
    None
}

/// The position of the composite type `name` in `m`.
fn find_composite(m: &Vec<CompositeSymbol>, name: &String) -> (r: Option<usize>)
    ensures
        match r {
            Some(i) => i < m.len() && lookup_composite(m@, name@) == Some(m@[i as int]),
            None => lookup_composite(m@, name@) is None,
        },
{
    let mut i: usize = 0;
    assert(m@.subrange(0, m@.len() as int) =~= m@);
    while i < m.len()
        invariant
            i <= m.len(),
            lookup_composite(m@, name@) == lookup_composite(m@.subrange(i as int, m@.len() as int), name@),
        decreases m.len() - i,
    {
        let ghost rest = m@.subrange(i as int, m@.len() as int);
        assert(rest.subrange(1, rest.len() as int) =~= m@.subrange(i + 1, m@.len() as int));
        if m[i].name == *name {
            return Some(i);
        }
        i = i + 1;
    }
    None
}

/// The position of the function `name` in `m`.
fn find_function(m: &Vec<FunctionSymbol>, name: &String) -> (r: Option<usize>)
    ensures
        match r {
            Some(i) => i < m.len() && lookup_function(m@, name@) == Some(m@[i as int].output_type),
            None => lookup_function(m@, name@) is None,
        },
{
    let mut i: usize = 0;
    assert(m@.subrange(0, m@.len() as int) =~= m@);
    while i < m.len()
        invariant
            i <= m.len(),
            lookup_function(m@, name@) == lookup_function(m@.subrange(i as int, m@.len() as int), name@),
        decreases m.len() - i,
    {
        let ghost rest = m@.subrange(i as int, m@.len() as int);
        assert(rest.subrange(1, rest.len() as int) =~= m@.subrange(i + 1, m@.len() as int));
        if m[i].name == *name {
            return Some(i);
        }
        i = i + 1;
    }
    None
}

/// Lowers expressions of one function body, numbering registers from a
/// counter that never decreases.
pub struct CodeGenerator {
    pub env: Environment,
    pub next_register: u64,
}

impl CodeGenerator {
    /// A generator for a fresh function body: registers start at `r0`.
    pub fn new(env: Environment) -> (r: Self)
        ensures
            r.env == env,
            r.next_register == 0,
    {
        CodeGenerator { env, next_register: 0 }
    }

    /// Takes the next register; the counter moves past it.
    fn fresh_register(&mut self) -> (r: Result<u64, CodegenError>)
        ensures
            final(self).env == old(self).env,
            old(self).next_register == u64::MAX ==> r == Err::<u64, CodegenError>(CodegenError::RegisterOverflow)
                && final(self).next_register == old(self).next_register,
            old(self).next_register < u64::MAX ==> r == Ok::<u64, CodegenError>(old(self).next_register)
                && final(self).next_register == old(self).next_register + 1,
    {
        if self.next_register == u64::MAX {
            Err(CodegenError::RegisterOverflow)
        } else {
            let d = self.next_register;
            self.next_register = self.next_register + 1;
            Ok(d)
        }
    }

    /// Lowers `input`: its value reference and the instructions before it.
    pub fn visit_expression(&mut self, input: &Expression) -> (r: Result<Lowered, CodegenError>)
        ensures
            final(self).env == old(self).env,
            agrees(r, lower(old(self).env, *input, old(self).next_register), final(self).next_register),
        decreases input, 2int,
    {
        match input {
            Expression::Access(_) => self.visit_access(input),
            Expression::Binary { .. } => self.visit_binary(input),
            Expression::Call(_) => self.visit_call(input),
            Expression::Struct(_) => self.visit_struct_init(input),
            Expression::Error => Err(CodegenError::ErrorExpression),
            Expression::Identifier(name) => self.visit_identifier(name),
            Expression::Literal(text) => Ok(Lowered { value: single(text.clone()), instructions: empty_instructions() }),
            Expression::Ternary { .. } => self.visit_ternary(input),
            Expression::Tuple(_) => self.visit_tuple(input),
            Expression::Unary { .. } => self.visit_unary(input),
            Expression::Unit => Err(CodegenError::UnitExpression),
        }
    }

    fn visit_identifier(&mut self, name: &String) -> (r: Result<Lowered, CodegenError>)
        ensures
            *final(self) == *old(self),
            agrees(
                r,
                lower(old(self).env, Expression::Identifier(*name), old(self).next_register),
                final(self).next_register,
            ),
    {
        match storage_of(&self.env.variable_mapping, name) {
            Some(storage) => {
                let r = Lowered { value: vec![storage], instructions: Vec::new() };
                assert(texts(r.value@) =~= seq![storage@]);
                assert(instruction_views(r.instructions@) =~= Seq::<InstructionView>::empty());
                Ok(r)
            },
            None => Err(CodegenError::UnmappedVariable(name.clone())),
        }
    }

    fn visit_binary(&mut self, input: &Expression) -> (r: Result<Lowered, CodegenError>)
        requires
            input is Binary,
        ensures
            final(self).env == old(self).env,
            agrees(r, lower(old(self).env, *input, old(self).next_register), final(self).next_register),
        decreases input, 0int,
    {
        match input {
            Expression::Binary { left, op, right } => {
                let l = match self.visit_expression(left) {
                    Ok(v) => v,
                    Err(x) => {
                        return Err(x);
                    },
                };
                let r = match self.visit_expression(right) {
                    Ok(v) => v,
                    Err(x) => {
                        return Err(x);
                    },
                };
                let left_operand = join_with_spaces(&l.value);
                let right_operand = join_with_spaces(&r.value);
                let destination = match self.fresh_register() {
                    Ok(v) => v,
                    Err(x) => {
                        return Err(x);
                    },
                };
                let mut instructions = l.instructions;
                let mut right_instructions = r.instructions;
                proof {
                    lemma_views_concat(instructions@, right_instructions@);
                }
                instructions.append(&mut right_instructions);
                let ghost before = instructions@;
                instructions.push(Instruction::Binary { op: *op, left: left_operand, right: right_operand, destination });
                proof {
                    assert(instructions@ == before.push(instructions@.last()));
                    assert(instruction_views(instructions@) =~= instruction_views(before).push(instructions@.last()@));
                }
                Ok(Lowered { value: single(register_name(destination)), instructions })
            },
            _ => Err(CodegenError::ErrorExpression),
        }
    }

    fn visit_unary(&mut self, input: &Expression) -> (r: Result<Lowered, CodegenError>)
        requires
            input is Unary,
        ensures
            final(self).env == old(self).env,
            agrees(r, lower(old(self).env, *input, old(self).next_register), final(self).next_register),
        decreases input, 0int,
    {
        match input {
            Expression::Unary { op, receiver } => {
                let l = match self.visit_expression(receiver) {
                    Ok(v) => v,
                    Err(x) => {
                        return Err(x);
                    },
                };
                let operand = join_with_spaces(&l.value);
                let destination = match self.fresh_register() {
                    Ok(v) => v,
                    Err(x) => {
                        return Err(x);
                    },
                };
                let mut instructions = l.instructions;
                let ghost before = instructions@;
                instructions.push(Instruction::Unary { op: *op, operand, destination });
                proof {
                    assert(instruction_views(instructions@) =~= instruction_views(before).push(instructions@.last()@));
                }
                Ok(Lowered { value: single(register_name(destination)), instructions })
            },
            _ => Err(CodegenError::ErrorExpression),
        }
    }

    fn visit_ternary(&mut self, input: &Expression) -> (r: Result<Lowered, CodegenError>)
        requires
            input is Ternary,
        ensures
            final(self).env == old(self).env,
            agrees(r, lower(old(self).env, *input, old(self).next_register), final(self).next_register),
        decreases input, 0int,
    {
        match input {
            Expression::Ternary { condition, if_true, if_false } => {
                let c = match self.visit_expression(condition) {
                    Ok(v) => v,
                    Err(x) => {
                        return Err(x);
                    },
                };
                let t = match self.visit_expression(if_true) {
                    Ok(v) => v,
                    Err(x) => {
                        return Err(x);
                    },
                };
                let f = match self.visit_expression(if_false) {
                    Ok(v) => v,
                    Err(x) => {
                        return Err(x);
                    },
                };
                let condition_operand = join_with_spaces(&c.value);
                let if_true_operand = join_with_spaces(&t.value);
                let if_false_operand = join_with_spaces(&f.value);
                let destination = match self.fresh_register() {
                    Ok(v) => v,
                    Err(x) => {
                        return Err(x);
                    },
                };
                let mut instructions = c.instructions;
                let mut t_instructions = t.instructions;
                let mut f_instructions = f.instructions;
                proof {
                    lemma_views_concat(instructions@, t_instructions@);
                    lemma_views_concat(instructions@ + t_instructions@, f_instructions@);
                }
                instructions.append(&mut t_instructions);
                instructions.append(&mut f_instructions);
                let ghost before = instructions@;
                instructions.push(
                    Instruction::Ternary {
                        condition: condition_operand,
                        if_true: if_true_operand,
                        if_false: if_false_operand,
                        destination,
                    },
                );
                proof {
                    assert(instruction_views(instructions@) =~= instruction_views(before).push(instructions@.last()@));
                }
                Ok(Lowered { value: single(register_name(destination)), instructions })
            },
            _ => Err(CodegenError::ErrorExpression),
        }
    }

    /// Takes the next `n` registers, in order; with their names.
    fn fresh_registers(&mut self, n: usize) -> (r: (Vec<u64>, Vec<String>))
        requires
            old(self).next_register + n <= u64::MAX,
        ensures
            final(self).env == old(self).env,
            final(self).next_register == old(self).next_register + n,
            r.0@ == register_run(old(self).next_register, n as nat),
            texts(r.1@) == register_run(old(self).next_register, n as nat).map_values(|d: u64| register_text(d)),
    {
        let first = self.next_register;
        let mut destinations: Vec<u64> = Vec::new();
        let mut value: Vec<String> = Vec::new();
        let mut j: usize = 0;
        assert(destinations@ =~= register_run(first, 0));
        assert(texts(value@) =~= register_run(first, 0).map_values(|d: u64| register_text(d)));
        while j < n
            invariant
                j <= n,
                first + n <= u64::MAX,
                first == old(self).next_register,
                self.env == old(self).env,
                self.next_register == first + j,
                destinations@ == register_run(first, j as nat),
                texts(value@) == register_run(first, j as nat).map_values(|d: u64| register_text(d)),
            decreases n - j,
        {
            let d = self.next_register;
            let ghost old_value = value@;
            destinations.push(d);
            let name = register_name(d);
            value.push(name);
            self.next_register = self.next_register + 1;
            proof {
                let run = register_run(first, j as nat);
                assert(register_run(first, (j + 1) as nat) =~= run.push(d));
                assert(texts(value@) =~= texts(old_value).push(name@));
                assert(run.push(d).map_values(|d: u64| register_text(d))
                    =~= run.map_values(|d: u64| register_text(d)).push(register_text(d)));
            }
            j = j + 1;
        }
        (destinations, value)
    }

    /// Lowers `es` left to right, each to one operand.
    fn visit_operands(&mut self, es: &Vec<Expression>) -> (r: Result<(Vec<String>, Vec<Instruction>), CodegenError>)
        ensures
            final(self).env == old(self).env,
            agrees_operands(r, lower_operands(old(self).env, es@, old(self).next_register), final(self).next_register),
        decreases es, 0int,
    {
        let ghost env = self.env;
        let ghost start = self.next_register;
        let mut operands: Vec<String> = Vec::new();
        let mut instructions: Vec<Instruction> = Vec::new();
        let mut i: usize = 0;
        assert(texts(operands@) =~= Seq::<Seq<char>>::empty());
        assert(instruction_views(instructions@) =~= Seq::<InstructionView>::empty());
        while i < es.len()
            invariant
                i <= es.len(),
                self.env == env,
                old(self).env == env,
                old(self).next_register == start,
                agrees_operands(
                    Ok((operands, instructions)),
                    lower_operands(env, es@.subrange(0, i as int), start),
                    self.next_register,
                ),
            decreases es.len() - i,
        {
            let ghost prefix = es@.subrange(0, i + 1);
            assert(prefix.subrange(0, prefix.len() - 1) =~= es@.subrange(0, i as int));
            assert(prefix[prefix.len() - 1] == es@[i as int]);
            let l = match self.visit_expression(&es[i]) {
                Ok(v) => v,
                Err(x) => {
                    proof {
                        assert(lower_operands(env, es@.subrange(0, i + 1), start) == Err::<OperandsView, CodegenError>(x));
                        lemma_operands_prefix_err(env, es@, i + 1, start);
                    }
                    return Err(x);
                },
            };
            operands.push(join_with_spaces(&l.value));
            let mut more = l.instructions;
            proof {
                lemma_views_concat(instructions@, more@);
            }
            instructions.append(&mut more);
            i = i + 1;
            proof {
                assert(texts(operands@) =~= lower_operands(env, prefix, start)->Ok_0.operands);
            }
        }
        assert(es@.subrange(0, es@.len() as int) =~= es@);
        Ok((operands, instructions))
    }

    /// Lowers struct members left to right, each to one operand.
    fn visit_members(&mut self, ms: &Vec<StructVariableInitializer>) -> (r: Result<
        (Vec<String>, Vec<Instruction>),
        CodegenError,
    >)
        ensures
            final(self).env == old(self).env,
            agrees_operands(r, lower_members(old(self).env, ms@, old(self).next_register), final(self).next_register),
        decreases ms, 0int,
    {
        let ghost env = self.env;
        let ghost start = self.next_register;
        let mut operands: Vec<String> = Vec::new();
        let mut instructions: Vec<Instruction> = Vec::new();
        let mut i: usize = 0;
        assert(texts(operands@) =~= Seq::<Seq<char>>::empty());
        assert(instruction_views(instructions@) =~= Seq::<InstructionView>::empty());
        while i < ms.len()
            invariant
                i <= ms.len(),
                self.env == env,
                old(self).env == env,
                old(self).next_register == start,
                agrees_operands(
                    Ok((operands, instructions)),
                    lower_members(env, ms@.subrange(0, i as int), start),
                    self.next_register,
                ),
            decreases ms.len() - i,
        {
            let ghost prefix = ms@.subrange(0, i + 1);
            assert(prefix.subrange(0, prefix.len() - 1) =~= ms@.subrange(0, i as int));
            assert(prefix[prefix.len() - 1] == ms@[i as int]);
            match &ms[i].expression {
                Some(e) => {
                    let l = match self.visit_expression(e) {
                        Ok(v) => v,
                        Err(x) => {
                            proof {
                                assert(lower_members(env, ms@.subrange(0, i + 1), start) == Err::<OperandsView, CodegenError>(x));
                                lemma_members_prefix_err(env, ms@, i + 1, start);
                            }
                            return Err(x);
                        },
                    };
                    operands.push(join_with_spaces(&l.value));
                    let mut more = l.instructions;
                    proof {
                        lemma_views_concat(instructions@, more@);
                    }
                    instructions.append(&mut more);
                },
                None => {
                    let l = match self.visit_identifier(&ms[i].identifier) {
                        Ok(v) => v,
                        Err(x) => {
                            proof {
                                assert(lower_members(env, ms@.subrange(0, i + 1), start) == Err::<OperandsView, CodegenError>(x));
                                lemma_members_prefix_err(env, ms@, i + 1, start);
                            }
                            return Err(x);
                        },
                    };
                    operands.push(join_with_spaces(&l.value));
                    proof {
                        assert(texts(l.value@) =~= seq![lookup_variable(env.variable_mapping@, ms@[i as int].identifier@)->Some_0@]);
                        reveal_with_fuel(join_spaced, 2);
                    }
                },
            }
            i = i + 1;
            proof {
                assert(texts(operands@) =~= lower_members(env, prefix, start)->Ok_0.operands);
            }
        }
        assert(ms@.subrange(0, ms@.len() as int) =~= ms@);
        Ok((operands, instructions))
    }

    fn visit_tuple(&mut self, input: &Expression) -> (r: Result<Lowered, CodegenError>)
        requires
            input is Tuple,
        ensures
            final(self).env == old(self).env,
            agrees(r, lower(old(self).env, *input, old(self).next_register), final(self).next_register),
        decreases input, 0int,
    {
        match input {
            Expression::Tuple(elements) => {
                let (value, instructions) = match self.visit_operands(elements) {
                    Ok(v) => v,
                    Err(x) => {
                        return Err(x);
                    },
                };
                Ok(Lowered { value, instructions })
            },
            _ => Err(CodegenError::ErrorExpression),
        }
    }

    fn visit_struct_init(&mut self, input: &Expression) -> (r: Result<Lowered, CodegenError>)
        requires
            input is Struct,
        ensures
            final(self).env == old(self).env,
            agrees(r, lower(old(self).env, *input, old(self).next_register), final(self).next_register),
        decreases input, 0int,
    {
        match input {
            Expression::Struct(s) => {
                let target_type = match find_composite(&self.env.composite_mapping, &s.name) {
                    Some(k) => {
                        let c = &self.env.composite_mapping[k];
                        if c.is_record {
                            let mut t = s.name.clone();
                            t.append(".");
                            t.append(c.visibility.as_str());
                            t
                        } else {
                            s.name.clone()
                        }
                    },
                    None => {
                        return Err(CodegenError::UnknownComposite(s.name.clone()));
                    },
                };
                let (operands, mut instructions) = match self.visit_members(&s.members) {
                    Ok(v) => v,
                    Err(x) => {
                        return Err(x);
                    },
                };
                let destination = match self.fresh_register() {
                    Ok(v) => v,
                    Err(x) => {
                        return Err(x);
                    },
                };
                let ghost before = instructions@;
                instructions.push(Instruction::Cast { operands, destination, target_type });
                proof {
                    assert(instruction_views(instructions@) =~= instruction_views(before).push(instructions@.last()@));
                }
                Ok(Lowered { value: single(register_name(destination)), instructions })
            },
            _ => Err(CodegenError::ErrorExpression),
        }
    }

    fn visit_access(&mut self, input: &Expression) -> (r: Result<Lowered, CodegenError>)
        requires
            input is Access,
        ensures
            final(self).env == old(self).env,
            agrees(r, lower(old(self).env, *input, old(self).next_register), final(self).next_register),
        decreases input, 1int,
    {
        match input {
            Expression::Access(AccessExpression::Member { .. }) => self.visit_member_access(input),
            Expression::Access(AccessExpression::AssociatedFunction { .. }) => self.visit_associated_function(input),
            _ => Err(CodegenError::UnsupportedAccess),
        }
    }

    fn visit_member_access(&mut self, input: &Expression) -> (r: Result<Lowered, CodegenError>)
        requires
            input matches Expression::Access(AccessExpression::Member { .. }),
        ensures
            final(self).env == old(self).env,
            agrees(r, lower(old(self).env, *input, old(self).next_register), final(self).next_register),
        decreases input, 0int,
    {
        match input {
            Expression::Access(AccessExpression::Member { inner, name }) => {
                let i = match self.visit_expression(inner) {
                    Ok(v) => v,
                    Err(x) => {
                        return Err(x);
                    },
                };
                let mut reference = join_with_spaces(&i.value);
                reference.append(".");
                reference.append(name.as_str());
                Ok(Lowered { value: single(reference), instructions: i.instructions })
            },
            _ => Err(CodegenError::ErrorExpression),
        }
    }

    fn visit_associated_function(&mut self, input: &Expression) -> (r: Result<Lowered, CodegenError>)
        requires
            input matches Expression::Access(AccessExpression::AssociatedFunction { .. }),
        ensures
            final(self).env == old(self).env,
            agrees(r, lower(old(self).env, *input, old(self).next_register), final(self).next_register),
        decreases input, 0int,
    {
        match input {
            Expression::Access(AccessExpression::AssociatedFunction { ty, name, args }) => {
                let core = match ty {
                    Type::Core(core) => *core,
                    _ => {
                        return Err(CodegenError::UnknownCoreType);
                    },
                };
                let (operands, mut instructions) = match self.visit_operands(args) {
                    Ok(v) => v,
                    Err(x) => {
                        return Err(x);
                    },
                };
                let destination = match self.fresh_register() {
                    Ok(v) => v,
                    Err(x) => {
                        return Err(x);
                    },
                };
                let ghost before = instructions@;
                instructions.push(
                    Instruction::Associated { function: name.clone(), core, args: operands, destination },
                );
                proof {
                    assert(instruction_views(instructions@) =~= instruction_views(before).push(instructions@.last()@));
                }
                Ok(Lowered { value: single(register_name(destination)), instructions })
            },
            _ => Err(CodegenError::ErrorExpression),
        }
    }

    fn visit_call(&mut self, input: &Expression) -> (r: Result<Lowered, CodegenError>)
        requires
            input is Call,
        ensures
            final(self).env == old(self).env,
            agrees(r, lower(old(self).env, *input, old(self).next_register), final(self).next_register),
        decreases input, 0int,
    {
        match input {
            Expression::Call(c) => {
                let callee = match &c.external {
                    Some(program) => {
                        let mut t = program.clone();
                        t.append(".aleo/");
                        t.append(c.function.as_str());
                        t
                    },
                    None => c.function.clone(),
                };
                let (args, mut instructions) = match self.visit_operands(&c.arguments) {
                    Ok(v) => v,
                    Err(x) => {
                        return Err(x);
                    },
                };
                let ghost before = instructions@;
                let k = match find_function(&self.env.functions, &c.function) {
                    Some(k) => k,
                    None => {
                        return Err(CodegenError::UnknownFunction(c.function.clone()));
                    },
                };
                match &self.env.functions[k].output_type {
                    Type::Unit => {
                        let destinations: Vec<u64> = Vec::new();
                        assert(destinations@ =~= Seq::<u64>::empty());
                        instructions.push(Instruction::Call { callee, args, destinations });
                        let value: Vec<String> = Vec::new();
                        proof {
                            assert(instruction_views(instructions@) =~= instruction_views(before).push(instructions@.last()@));
                            assert(texts(value@) =~= Seq::<Seq<char>>::empty());
                        }
                        Ok(Lowered { value, instructions })
                    },
                    Type::Tuple(elements) => {
                        let n = elements.len();
                        if n < 2 {
                            return Err(CodegenError::ShortTupleType);
                        }
                        if self.next_register > u64::MAX - n as u64 {
                            return Err(CodegenError::RegisterOverflow);
                        }
                        let (destinations, value) = self.fresh_registers(n);
                        instructions.push(Instruction::Call { callee, args, destinations });
                        proof {
                            assert(instruction_views(instructions@) =~= instruction_views(before).push(instructions@.last()@));
                        }
                        Ok(Lowered { value, instructions })
                    },
                    _ => {
                        let destination = match self.fresh_register() {
                            Ok(v) => v,
                            Err(x) => {
                                return Err(x);
                            },
                        };
                        let destinations = vec![destination];
                        assert(destinations@ =~= seq![destination]);
                        instructions.push(Instruction::Call { callee, args, destinations });
                        proof {
                            assert(instruction_views(instructions@) =~= instruction_views(before).push(instructions@.last()@));
                        }
                        Ok(Lowered { value: single(register_name(destination)), instructions })
                    },
                }
            },
            _ => Err(CodegenError::ErrorExpression),
        }
    }
}

impl CodeGenerator {
    /// Lowers `input` to text: its value reference, with the entries of a
    /// tuple separated by spaces, and the lines of the instructions to run
    /// before it.
    pub fn emit_expression(&mut self, input: &Expression) -> (r: Result<(String, String), CodegenError>)
        ensures
            final(self).env == old(self).env,
            match lower(old(self).env, *input, old(self).next_register) {
                Ok(l) => {
                    &&& r is Ok
                    &&& r->Ok_0.0@ == join_spaced(l.value)
                    &&& r->Ok_0.1@ == program_text(l.instructions)
                    &&& final(self).next_register == l.next
                },
                Err(x) => r == Err::<(String, String), CodegenError>(x),
            },
    {
        match self.visit_expression(input) {
            Ok(l) => {
                let value = join_with_spaces(&l.value);
                let text = render(&l.instructions);
                Ok((value, text))
            },
            Err(x) => Err(x),
        }
    }
}

/// The instructions of `a op b` are those of `a`, then those of `b`, then
/// the operation itself, which reads both results.
pub proof fn lemma_binary_evaluation_order(
    env: Environment,
    left: Expression,
    op: BinaryOperation,
    right: Expression,
    next: u64,
)
    requires
        lower(env, Expression::Binary { left: Box::new(left), op, right: Box::new(right) }, next) is Ok,
    ensures
        ({
            let whole = lower(env, Expression::Binary { left: Box::new(left), op, right: Box::new(right) }, next)->Ok_0;
            let l = lower(env, left, next)->Ok_0;
            let r = lower(env, right, l.next)->Ok_0;
            &&& lower(env, left, next) is Ok
            &&& lower(env, right, l.next) is Ok
            &&& whole.instructions == l.instructions + r.instructions + seq![
                InstructionView::Binary {
                    op,
                    left: join_spaced(l.value),
                    right: join_spaced(r.value),
                    destination: r.next,
                },
            ]
        }),
{
    let l = lower(env, left, next)->Ok_0;
    let r = lower(env, right, l.next)->Ok_0;
    assert((l.instructions + r.instructions).push(
        InstructionView::Binary { op, left: join_spaced(l.value), right: join_spaced(r.value), destination: r.next },
    ) =~= l.instructions + r.instructions + seq![
        InstructionView::Binary { op, left: join_spaced(l.value), right: join_spaced(r.value), destination: r.next },
    ]);
}

/// A call of a function whose declared output is a tuple of `n >= 2`
/// elements ends in a call instruction that writes `n` distinct registers,
/// consecutive and in order, and the call's value is their names in that
/// order.
pub proof fn lemma_tuple_call_destinations(env: Environment, c: CallExpression, elements: Vec<Type>, next: u64)
    requires
        lookup_function(env.functions@, c.function@) == Some(Type::Tuple(elements)),
        lower(env, Expression::Call(c), next) is Ok,
    ensures
        ({
            let whole = lower(env, Expression::Call(c), next)->Ok_0;
            let n = elements@.len();
            let dests = destinations(whole.instructions.last());
            &&& n >= 2
            &&& whole.instructions.len() > 0
            &&& whole.instructions.last() is Call
            &&& dests.len() == n
            &&& forall|i: int, j: int| 0 <= i < j < n ==> #[trigger] dests[i] < #[trigger] dests[j]
            &&& forall|i: int| 0 <= i < n ==> #[trigger] dests[i] == dests[0] + i
            &&& whole.value == dests.map_values(|d: u64| register_text(d))
            &&& whole.next == dests.last() + 1
        }),
{
    let o = lower_operands(env, c.arguments@, next)->Ok_0;
    assert(lower_call_output(env, c, o) is Ok);
}

/// The destinations of `instrs`, in order, are the registers `from` up to
/// but not including `to`.
pub open spec fn consecutive(instrs: Seq<InstructionView>, from: u64, to: u64) -> bool {
    from <= to && all_destinations(instrs) == register_run(from, (to - from) as nat)
}

proof fn lemma_destinations_concat(a: Seq<InstructionView>, b: Seq<InstructionView>)
    ensures
        all_destinations(a + b) == all_destinations(a) + all_destinations(b),
    decreases b.len(),
{
    if b.len() == 0 {
        assert(a + b =~= a);
        assert(all_destinations(a) + all_destinations(b) =~= all_destinations(a));
    } else {
        assert((a + b).drop_last() =~= a + b.drop_last());
        lemma_destinations_concat(a, b.drop_last());
        assert(all_destinations(a + b) =~= all_destinations(a) + all_destinations(b));
    }
}

proof fn lemma_consecutive_join(a: Seq<InstructionView>, b: Seq<InstructionView>, x: u64, y: u64, z: u64)
    requires
        consecutive(a, x, y),
        consecutive(b, y, z),
    ensures
        consecutive(a + b, x, z),
{
    lemma_destinations_concat(a, b);
    assert(register_run(x, (y - x) as nat) + register_run(y, (z - y) as nat) =~= register_run(x, (z - x) as nat));
}

proof fn lemma_consecutive_push(a: Seq<InstructionView>, x: u64, y: u64, i: InstructionView, k: nat)
    requires
        consecutive(a, x, y),
        destinations(i) == register_run(y, k),
        y + k <= u64::MAX,
    ensures
        consecutive(a.push(i), x, (y + k) as u64),
{
    assert(a.push(i).drop_last() =~= a);
    assert(register_run(x, (y - x) as nat) + register_run(y, k) =~= register_run(x, (y + k - x) as nat));
}

/// Registers are issued in order with none skipped: the destinations of the
/// instructions of `e`, read in order, are exactly the registers from the
/// counter at the start up to the counter at the end.
pub proof fn lemma_registers_consecutive(env: Environment, e: Expression, next: u64)
    requires
        lower(env, e, next) is Ok,
    ensures
        consecutive(lower(env, e, next)->Ok_0.instructions, next, lower(env, e, next)->Ok_0.next),
    decreases e,
{
    let whole = lower(env, e, next)->Ok_0;
    assert(all_destinations(Seq::<InstructionView>::empty()) =~= register_run(next, 0));
    match e {
        Expression::Binary { left, op, right } => {
            let l = lower(env, *left, next)->Ok_0;
            let r = lower(env, *right, l.next)->Ok_0;
            lemma_registers_consecutive(env, *left, next);
            lemma_registers_consecutive(env, *right, l.next);
            lemma_consecutive_join(l.instructions, r.instructions, next, l.next, r.next);
            assert(seq![r.next] =~= register_run(r.next, 1));
            lemma_consecutive_push(
                l.instructions + r.instructions,
                next,
                r.next,
                InstructionView::Binary {
                    op,
                    left: join_spaced(l.value),
                    right: join_spaced(r.value),
                    destination: r.next,
                },
                1,
            );
        },
        Expression::Unary { op, receiver } => {
            let l = lower(env, *receiver, next)->Ok_0;
            lemma_registers_consecutive(env, *receiver, next);
            assert(seq![l.next] =~= register_run(l.next, 1));
            lemma_consecutive_push(
                l.instructions,
                next,
                l.next,
                InstructionView::Unary { op, operand: join_spaced(l.value), destination: l.next },
                1,
            );
        },
        Expression::Ternary { condition, if_true, if_false } => {
            let c = lower(env, *condition, next)->Ok_0;
            let t = lower(env, *if_true, c.next)->Ok_0;
            let f = lower(env, *if_false, t.next)->Ok_0;
            lemma_registers_consecutive(env, *condition, next);
            lemma_registers_consecutive(env, *if_true, c.next);
            lemma_registers_consecutive(env, *if_false, t.next);
            lemma_consecutive_join(c.instructions, t.instructions, next, c.next, t.next);
            lemma_consecutive_join(c.instructions + t.instructions, f.instructions, next, t.next, f.next);
            assert(seq![f.next] =~= register_run(f.next, 1));
            lemma_consecutive_push(
                c.instructions + t.instructions + f.instructions,
                next,
                f.next,
                InstructionView::Ternary {
                    condition: join_spaced(c.value),
                    if_true: join_spaced(t.value),
                    if_false: join_spaced(f.value),
                    destination: f.next,
                },
                1,
            );
        },
        Expression::Struct(s) => {
            let c = lookup_composite(env.composite_mapping@, s.name@)->Some_0;
            let o = lower_members(env, s.members@, next)->Ok_0;
            lemma_members_consecutive(env, s.members@, next);
            assert(seq![o.next] =~= register_run(o.next, 1));
            lemma_consecutive_push(
                o.instructions,
                next,
                o.next,
                InstructionView::Cast { operands: o.operands, destination: o.next, target_type: composite_text(s, c) },
                1,
            );
        },
        Expression::Access(AccessExpression::Member { inner, name: _ }) => {
            lemma_registers_consecutive(env, *inner, next);
        },
        Expression::Access(AccessExpression::AssociatedFunction { ty, name, args }) => {
            let o = lower_operands(env, args@, next)->Ok_0;
            lemma_operands_consecutive(env, args@, next);
            assert(seq![o.next] =~= register_run(o.next, 1));
            lemma_consecutive_push(
                o.instructions,
                next,
                o.next,
                InstructionView::Associated { function: name@, core: ty->Core_0, args: o.operands, destination: o.next },
                1,
            );
        },
        Expression::Call(c) => {
            let o = lower_operands(env, c.arguments@, next)->Ok_0;
            lemma_operands_consecutive(env, c.arguments@, next);
            match lookup_function(env.functions@, c.function@) {
                Some(Type::Unit) => {
                    assert(seq![] =~= register_run(o.next, 0));
                    lemma_consecutive_push(
                        o.instructions,
                        next,
                        o.next,
                        InstructionView::Call { callee: callee_text(c), args: o.operands, destinations: seq![] },
                        0,
                    );
                },
                Some(Type::Tuple(elements)) => {
                    let n = elements@.len();
                    lemma_consecutive_push(
                        o.instructions,
                        next,
                        o.next,
                        InstructionView::Call {
                            callee: callee_text(c),
                            args: o.operands,
                            destinations: register_run(o.next, n),
                        },
                        n,
                    );
                },
                _ => {
                    assert(seq![o.next] =~= register_run(o.next, 1));
                    lemma_consecutive_push(
                        o.instructions,
                        next,
                        o.next,
                        InstructionView::Call { callee: callee_text(c), args: o.operands, destinations: seq![o.next] },
                        1,
                    );
                },
            }
        },
        Expression::Tuple(elements) => {
            lemma_operands_consecutive(env, elements@, next);
        },
        _ => {},
    }
}

/// An operation, a cast, a core function or a call with an output writes at
/// least one register, and the first one it writes is the counter at the
/// start: a fresh generator's first such instruction writes `r0`.
pub proof fn lemma_first_register(env: Environment, e: Expression, next: u64)
    requires
        lower(env, e, next) is Ok,
        e is Binary || e is Unary || e is Ternary || e is Struct
            || e matches Expression::Access(AccessExpression::AssociatedFunction { .. })
            || (e is Call && lower(env, e, next)->Ok_0.value.len() > 0),
    ensures
        lower(env, e, next)->Ok_0.next > next,
        all_destinations(lower(env, e, next)->Ok_0.instructions).len() > 0,
        all_destinations(lower(env, e, next)->Ok_0.instructions)[0] == next,
{
    let l = lower(env, e, next)->Ok_0;
    lemma_registers_consecutive(env, e, next);
    let instrs = l.instructions;
    assert(instrs.len() > 0);
    if e is Call {
        let c = e->Call_0;
        let o = lower_operands(env, c.arguments@, next)->Ok_0;
        assert(lower_call_output(env, c, o) is Ok);
    }
    assert(destinations(instrs.last()).len() > 0);
    assert(all_destinations(instrs).len() > 0);
}

proof fn lemma_operands_consecutive(env: Environment, es: Seq<Expression>, next: u64)
    requires
        lower_operands(env, es, next) is Ok,
    ensures
        consecutive(lower_operands(env, es, next)->Ok_0.instructions, next, lower_operands(env, es, next)->Ok_0.next),
    decreases es,
{
    if es.len() == 0 {
        assert(all_destinations(Seq::<InstructionView>::empty()) =~= register_run(next, 0));
    } else {
        let prefix = es.subrange(0, es.len() - 1);
        let p = lower_operands(env, prefix, next)->Ok_0;
        let l = lower(env, es[es.len() - 1], p.next)->Ok_0;
        lemma_operands_consecutive(env, prefix, next);
        lemma_registers_consecutive(env, es[es.len() - 1], p.next);
        lemma_consecutive_join(p.instructions, l.instructions, next, p.next, l.next);
    }
}

proof fn lemma_members_consecutive(env: Environment, ms: Seq<StructVariableInitializer>, next: u64)
    requires
        lower_members(env, ms, next) is Ok,
    ensures
        consecutive(lower_members(env, ms, next)->Ok_0.instructions, next, lower_members(env, ms, next)->Ok_0.next),
    decreases ms,
{
    if ms.len() == 0 {
        assert(all_destinations(Seq::<InstructionView>::empty()) =~= register_run(next, 0));
    } else {
        let prefix = ms.subrange(0, ms.len() - 1);
        let p = lower_members(env, prefix, next)->Ok_0;
        lemma_members_consecutive(env, prefix, next);
        match ms[ms.len() - 1].expression {
            Some(e) => {
                let l = lower(env, e, p.next)->Ok_0;
                lemma_registers_consecutive(env, e, p.next);
                lemma_consecutive_join(p.instructions, l.instructions, next, p.next, l.next);
            },
            None => {},
        }
    }
}

} // verus!
