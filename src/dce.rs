//! Dead code elimination over flattened, single-assignment function bodies.
//!
//! Statements are visited from last to first. A variable is live when a
//! later kept statement reads it. Statements with an effect are always kept;
//! an assignment is kept only when one of the variables it defines is live,
//! and otherwise becomes the no-op statement.

use vstd::prelude::*;
use crate::ast::{
    AccessExpression, AssertVariant, Block, Expression, Statement, StructExpression, StructVariableInitializer,
};

verus! {

/// Why a statement could not be processed. Each marks a shape that earlier
/// passes rule out.
#[derive(Debug, PartialEq, Eq, Structural)]
pub enum DceError {
    /// A conditional statement; flattening removes these.
    UnexpectedConditional,
    /// A console statement.
    UnexpectedConsole,
    /// A definition statement; single assignment turns these into assignments.
    UnexpectedDefinition,
    /// A loop; unrolling removes these.
    UnexpectedIteration,
    /// An expression statement that is not a call.
    NonCallExpressionStatement,
    /// An assignment to something other than an identifier or a tuple of them.
    InvalidAssignPlace,
    /// A struct member written in shorthand.
    MissingMemberExpression,
}

/// Both sets, when both are there.
pub open spec fn join_uses(a: Option<Set<Seq<char>>>, b: Option<Set<Seq<char>>>) -> Option<Set<Seq<char>>> {
    match (a, b) {
        (Some(x), Some(y)) => Some(x + y),
        _ => None,
    }
}

/// The variables `e` reads; `None` when it holds a shorthand struct member.
pub open spec fn expr_uses(e: Expression) -> Option<Set<Seq<char>>>
    decreases e,
{
    match e {
        Expression::Identifier(name) => Some(set![name@]),
        Expression::Literal(_) => Some(Set::empty()),
        Expression::Unit => Some(Set::empty()),
        Expression::Error => Some(Set::empty()),
        Expression::Binary { left, op: _, right } => join_uses(expr_uses(*left), expr_uses(*right)),
        Expression::Unary { op: _, receiver } => expr_uses(*receiver),
        Expression::Ternary { condition, if_true, if_false } => join_uses(
            join_uses(expr_uses(*condition), expr_uses(*if_true)),
            expr_uses(*if_false),
        ),
        Expression::Tuple(elements) => list_uses(elements@),
        Expression::Struct(s) => member_uses(s.members@),
        Expression::Access(AccessExpression::Member { inner, name: _ }) => expr_uses(*inner),
        Expression::Access(AccessExpression::AssociatedConstant { .. }) => Some(Set::empty()),
        Expression::Access(AccessExpression::AssociatedFunction { ty: _, name: _, args }) => list_uses(args@),
        Expression::Access(AccessExpression::Tuple { tuple, index: _ }) => expr_uses(*tuple),
        Expression::Call(c) => list_uses(c.arguments@),
    }
}

/// The variables a list of expressions reads.
pub open spec fn list_uses(es: Seq<Expression>) -> Option<Set<Seq<char>>>
    decreases es,
{
    if es.len() == 0 {
        Some(Set::empty())
    } else {
        join_uses(list_uses(es.subrange(0, es.len() - 1)), expr_uses(es[es.len() - 1]))
    }
}

/// The variables the members of a struct construction read.
pub open spec fn member_uses(ms: Seq<StructVariableInitializer>) -> Option<Set<Seq<char>>>
    decreases ms,
{
    if ms.len() == 0 {
        Some(Set::empty())
    } else {
        match ms[ms.len() - 1].expression {
            Some(e) => join_uses(member_uses(ms.subrange(0, ms.len() - 1)), expr_uses(e)),
            None => None,
        }
    }
}

/// The variables an assignment defines; `None` when its place is neither an
/// identifier nor a tuple of identifiers.
pub open spec fn place_names(place: Expression) -> Option<Seq<Seq<char>>> {
    match place {
        Expression::Identifier(name) => Some(seq![name@]),
        Expression::Tuple(elements) => if forall|i: int|
            0 <= i < elements@.len() ==> #[trigger] elements@[i] is Identifier {
            Some(elements@.map_values(|x: Expression| x->Identifier_0@))
        } else {
            None
        },
        _ => None,
    }
}

/// Whether some variable an assignment defines is live.
pub open spec fn place_is_live(names: Seq<Seq<char>>, live: Set<Seq<char>>) -> bool {
    exists|i: int| 0 <= i < names.len() && live.contains(#[trigger] names[i])
}

/// The live set before a kept statement that reads `uses`.
pub open spec fn add_uses(live: Set<Seq<char>>, uses: Option<Set<Seq<char>>>) -> Result<Set<Seq<char>>, DceError> {
    match uses {
        Some(u) => Ok(live + u),
        None => Err(DceError::MissingMemberExpression),
    }
}

/// The variables an assertion reads.
pub open spec fn assert_uses(v: AssertVariant) -> Option<Set<Seq<char>>> {
    match v {
        AssertVariant::Assert(e) => expr_uses(e),
        AssertVariant::AssertEq(a, b) => join_uses(expr_uses(a), expr_uses(b)),
        AssertVariant::AssertNeq(a, b) => join_uses(expr_uses(a), expr_uses(b)),
    }
}

/// The variables a return statement reads.
pub open spec fn return_uses(expression: Expression, finalize_arguments: Option<Vec<Expression>>) -> Option<Set<Seq<char>>> {
    match finalize_arguments {
        Some(args) => join_uses(expr_uses(expression), list_uses(args@)),
        None => expr_uses(expression),
    }
}

/// The live set before `s`, given the live set after it.
pub open spec fn step(s: Statement, live: Set<Seq<char>>) -> Result<Set<Seq<char>>, DceError>
    decreases s,
{
    match s {
        Statement::Assert(v) => add_uses(live, assert_uses(v)),
        Statement::Assign { place, value } => match place_names(place) {
            None => Err(DceError::InvalidAssignPlace),
            Some(names) => if place_is_live(names, live) {
                add_uses(live, expr_uses(value))
            } else {
                Ok(live)
            },
        },
        Statement::Block(b) => steps(b.statements@, live),
        Statement::Conditional { .. } => Err(DceError::UnexpectedConditional),
        Statement::Console(_) => Err(DceError::UnexpectedConsole),
        Statement::Definition { .. } => Err(DceError::UnexpectedDefinition),
        Statement::Iteration { .. } => Err(DceError::UnexpectedIteration),
        Statement::Decrement { mapping: _, index, amount } => add_uses(
            live,
            join_uses(expr_uses(index), expr_uses(amount)),
        ),
        Statement::Increment { mapping: _, index, amount } => add_uses(
            live,
            join_uses(expr_uses(index), expr_uses(amount)),
        ),
        Statement::Expression(e) => match e {
            Expression::Call(c) => add_uses(live, list_uses(c.arguments@)),
            _ => Err(DceError::NonCallExpressionStatement),
        },
        Statement::Return { expression, finalize_arguments } => add_uses(
            live,
            return_uses(expression, finalize_arguments),
        ),
    }
}

/// The live set before `ss`, given the live set after them: the later
/// statements are taken first.
pub open spec fn steps(ss: Seq<Statement>, live: Set<Seq<char>>) -> Result<Set<Seq<char>>, DceError>
    decreases ss,
{
    if ss.len() == 0 {
        Ok(live)
    } else {
        match steps(ss.subrange(1, ss.len() as int), live) {
            Ok(after) => step(ss[0], after),
            Err(x) => Err(x),
        }
    }
}

/// `out` is what elimination makes of `s` when `live` is live after it: a
/// dead assignment becomes the no-op statement, a block is processed
/// statement by statement, and everything else stays as it is.
pub open spec fn stmt_out(s: Statement, live: Set<Seq<char>>, out: Statement) -> bool
    decreases s,
{
    match s {
        Statement::Assign { place, value } => match place_names(place) {
            Some(names) => if place_is_live(names, live) {
                out == s
            } else {
                out.is_dummy()
            },
            None => out == s,
        },
        Statement::Block(b) => match out {
            Statement::Block(b2) => block_out(b.statements@, live, b2.statements@),
            _ => false,
        },
        _ => out == s,
    }
}

/// `outs` is what elimination makes of `ss`, one statement for each, when
/// `live` is live after them.
pub open spec fn block_out(ss: Seq<Statement>, live: Set<Seq<char>>, outs: Seq<Statement>) -> bool
    decreases ss,
{
    &&& outs.len() == ss.len()
    &&& ss.len() > 0 ==> {
        &&& stmt_out(ss[0], steps(ss.subrange(1, ss.len() as int), live)->Ok_0, outs[0])
        &&& block_out(ss.subrange(1, ss.len() as int), live, outs.subrange(1, outs.len() as int))
    }
}

/// `r` and `live2` are what noting the reads `uses` gives, from the live set
/// `live`, recording them only when `necessary`.
pub open spec fn noted(
    live: Set<Seq<char>>,
    necessary: bool,
    uses: Option<Set<Seq<char>>>,
    live2: Set<Seq<char>>,
    r: Result<(), DceError>,
) -> bool {
    match uses {
        Some(u) => r is Ok && live2 == if necessary {
            live + u
        } else {
            live
        },
        None => r == Err::<(), DceError>(DceError::MissingMemberExpression),
    }
}

/// `r` and the eliminator `after` are what processing `s` gives when `live`
/// is live after it.
pub open spec fn stmt_done(
    s: Statement,
    live: Set<Seq<char>>,
    after: DeadCodeEliminator,
    r: Result<Statement, DceError>,
) -> bool {
    match step(s, live) {
        Ok(l) => {
            &&& r is Ok
            &&& after.live() == l
            &&& !after.is_necessary
            &&& stmt_out(s, live, r->Ok_0)
        },
        Err(x) => r == Err::<Statement, DceError>(x),
    }
}

proof fn lemma_list_prefix_none(es: Seq<Expression>, k: int)
    requires
        0 <= k <= es.len(),
        list_uses(es.subrange(0, k)) is None,
    ensures
        list_uses(es) is None,
    decreases es.len() - k,
{
    if k < es.len() {
        let longer = es.subrange(0, k + 1);
        assert(longer.subrange(0, longer.len() - 1) =~= es.subrange(0, k));
        lemma_list_prefix_none(es, k + 1);
    } else {
        assert(es.subrange(0, k) =~= es);
    }
}

proof fn lemma_members_prefix_none(ms: Seq<StructVariableInitializer>, k: int)
    requires
        0 <= k <= ms.len(),
        member_uses(ms.subrange(0, k)) is None,
    ensures
        member_uses(ms) is None,
    decreases ms.len() - k,
{
    if k < ms.len() {
        let longer = ms.subrange(0, k + 1);
        assert(longer.subrange(0, longer.len() - 1) =~= ms.subrange(0, k));
        lemma_members_prefix_none(ms, k + 1);
    } else {
        assert(ms.subrange(0, k) =~= ms);
    }
}

proof fn lemma_steps_suffix_err(ss: Seq<Statement>, k: int, live: Set<Seq<char>>)
    requires
        0 <= k <= ss.len(),
        steps(ss.subrange(k, ss.len() as int), live) is Err,
    ensures
        steps(ss, live) == steps(ss.subrange(k, ss.len() as int), live),
    decreases k,
{
    if k > 0 {
        let longer = ss.subrange(k - 1, ss.len() as int);
        assert(longer.subrange(1, longer.len() as int) =~= ss.subrange(k, ss.len() as int));
        lemma_steps_suffix_err(ss, k - 1, live);
    } else {
        assert(ss.subrange(0, ss.len() as int) =~= ss);
    }
}

/// Removes assignments whose results are never read.
pub struct DeadCodeEliminator {
    /// The variables read by a later kept statement.
    pub used_variables: Vec<String>,
    /// Set while the parts of a kept statement are visited: the variables
    /// read there become live.
    pub is_necessary: bool,
}

impl DeadCodeEliminator {
    /// The live variables.
    pub open spec fn live(&self) -> Set<Seq<char>> {
        Set::new(|x: Seq<char>| exists|i: int| 0 <= i < self.used_variables@.len() && #[trigger] self.used_variables@[i]@ == x)
    }

    /// An eliminator with nothing live.
    pub fn new() -> (r: Self)
        ensures
            r.live() == Set::<Seq<char>>::empty(),
            !r.is_necessary,
    {
        let r = DeadCodeEliminator { used_variables: Vec::new(), is_necessary: false };
        assert(r.live() =~= Set::<Seq<char>>::empty());
        r
    }

    /// Whether `name` is live.
    pub fn is_used(&self, name: &String) -> (r: bool)
        ensures
            r == self.live().contains(name@),
    {
        let mut i: usize = 0;
        while i < self.used_variables.len()
            invariant
                i <= self.used_variables.len(),
                forall|k: int| 0 <= k < i ==> self.used_variables@[k]@ != name@,
            decreases self.used_variables.len() - i,
        {
            if self.used_variables[i] == *name {
                assert(self.used_variables@[i as int]@ == name@);
                return true;
            }
            i = i + 1;
        }
        false
    }

    /// Makes `name` live.
    fn mark_used(&mut self, name: &String)
        ensures
            final(self).live() == old(self).live().insert(name@),
            final(self).is_necessary == old(self).is_necessary,
    {
        if !self.is_used(name) {
            let ghost before = self.used_variables@;
            self.used_variables.push(name.clone());
            proof {
                let n = before.len() as int;
                assert(self.used_variables@[n]@ == name@);
                assert forall|y: Seq<char>| #[trigger] self.live().contains(y) == old(self).live().insert(name@).contains(y) by {
                    if old(self).live().contains(y) {
                        let i = choose|i: int| 0 <= i < before.len() && #[trigger] before[i]@ == y;
                        assert(self.used_variables@[i]@ == y);
                    }
                    if self.live().contains(y) && y != name@ {
                        let i = choose|i: int| 0 <= i < self.used_variables@.len() && #[trigger] self.used_variables@[i]@ == y;
                        assert(before[i]@ == y);
                    }
                }
                assert(self.live() =~= old(self).live().insert(name@));
            }
        } else {
            assert(self.live() =~= old(self).live().insert(name@));
        }
    }

    /// Records an identifier as read when inside a kept statement.
    pub fn reconstruct_identifier(&mut self, input: String) -> (r: Expression)
        ensures
            r == Expression::Identifier(input),
            final(self).is_necessary == old(self).is_necessary,
            noted(old(self).live(), old(self).is_necessary, expr_uses(r), final(self).live(), Ok(())),
    {
        if self.is_necessary {
            self.mark_used(&input);
            assert(old(self).live().insert(input@) =~= old(self).live() + set![input@]);
        }
        Expression::Identifier(input)
    }

    /// Notes the variables `e` reads.
    fn note_uses(&mut self, e: &Expression) -> (r: Result<(), DceError>)
        ensures
            final(self).is_necessary == old(self).is_necessary,
            noted(old(self).live(), old(self).is_necessary, expr_uses(*e), final(self).live(), r),
        decreases e,
    {
        let ghost live0 = self.live();
        match e {
            Expression::Identifier(name) => {
                if self.is_necessary {
                    self.mark_used(name);
                    assert(old(self).live().insert(name@) =~= old(self).live() + set![name@]);
                }
                Ok(())
            },
            Expression::Literal(_) | Expression::Unit | Expression::Error
            | Expression::Access(AccessExpression::AssociatedConstant { .. }) => {
                assert(live0 =~= live0 + Set::<Seq<char>>::empty());
                Ok(())
            },
            Expression::Binary { left, op: _, right } => {
                match self.note_uses(left) {
                    Ok(()) => {},
                    Err(x) => {
                        return Err(x);
                    },
                }
                let r = self.note_uses(right);
                proof {
                    if r is Ok {
                        let a = expr_uses(**left)->Some_0;
                        let b = expr_uses(**right)->Some_0;
                        assert(live0 + a + b =~= live0 + (a + b));
                    }
                }
                r
            },
            Expression::Unary { op: _, receiver } => self.note_uses(receiver),
            Expression::Access(AccessExpression::Member { inner, name: _ }) => self.note_uses(inner),
            Expression::Access(AccessExpression::Tuple { tuple, index: _ }) => self.note_uses(tuple),
            Expression::Ternary { condition, if_true, if_false } => {
                match self.note_uses(condition) {
                    Ok(()) => {},
                    Err(x) => {
                        return Err(x);
                    },
                }
                match self.note_uses(if_true) {
                    Ok(()) => {},
                    Err(x) => {
                        return Err(x);
                    },
                }
                let r = self.note_uses(if_false);
                proof {
                    if r is Ok {
                        let a = expr_uses(**condition)->Some_0;
                        let b = expr_uses(**if_true)->Some_0;
                        let c = expr_uses(**if_false)->Some_0;
                        assert(live0 + a + b + c =~= live0 + (a + b + c));
                    }
                }
                r
            },
            Expression::Tuple(elements) => self.note_list(elements),
            Expression::Access(AccessExpression::AssociatedFunction { ty: _, name: _, args }) => self.note_list(args),
            Expression::Call(c) => self.note_list(&c.arguments),
            Expression::Struct(s) => self.note_members(&s.members),
        }
    }

    /// Notes the variables a list of expressions reads.
    fn note_list(&mut self, es: &Vec<Expression>) -> (r: Result<(), DceError>)
        ensures
            final(self).is_necessary == old(self).is_necessary,
            noted(old(self).live(), old(self).is_necessary, list_uses(es@), final(self).live(), r),
        decreases es,
    {
        let ghost live0 = self.live();
        let ghost necessary = self.is_necessary;
        let mut i: usize = 0;
        assert(live0 =~= live0 + Set::<Seq<char>>::empty());
        while i < es.len()
            invariant
                i <= es.len(),
                live0 == old(self).live(),
                necessary == old(self).is_necessary,
                self.is_necessary == necessary,
                list_uses(es@.subrange(0, i as int)) is Some,
                self.live() == if necessary {
                    live0 + list_uses(es@.subrange(0, i as int))->Some_0
                } else {
                    live0
                },
            decreases es.len() - i,
        {
            let ghost prefix = es@.subrange(0, i + 1);
            assert(prefix.subrange(0, prefix.len() - 1) =~= es@.subrange(0, i as int));
            match self.note_uses(&es[i]) {
                Ok(()) => {},
                Err(x) => {
                    proof {
                        lemma_list_prefix_none(es@, i + 1);
                    }
                    return Err(x);
                },
            }
            proof {
                let a = list_uses(es@.subrange(0, i as int))->Some_0;
                let b = expr_uses(es@[i as int])->Some_0;
                assert(live0 + a + b =~= live0 + (a + b));
            }
            i = i + 1;
        }
        assert(es@.subrange(0, es@.len() as int) =~= es@);
        Ok(())
    }

    /// Notes the variables the members of a struct construction read.
    fn note_members(&mut self, ms: &Vec<StructVariableInitializer>) -> (r: Result<(), DceError>)
        ensures
            final(self).is_necessary == old(self).is_necessary,
            noted(old(self).live(), old(self).is_necessary, member_uses(ms@), final(self).live(), r),
        decreases ms,
    {
        let ghost live0 = self.live();
        let ghost necessary = self.is_necessary;
        let mut i: usize = 0;
        assert(live0 =~= live0 + Set::<Seq<char>>::empty());
        while i < ms.len()
            invariant
                i <= ms.len(),
                live0 == old(self).live(),
                necessary == old(self).is_necessary,
                self.is_necessary == necessary,
                member_uses(ms@.subrange(0, i as int)) is Some,
                self.live() == if necessary {
                    live0 + member_uses(ms@.subrange(0, i as int))->Some_0
                } else {
                    live0
                },
            decreases ms.len() - i,
        {
            let ghost prefix = ms@.subrange(0, i + 1);
            assert(prefix.subrange(0, prefix.len() - 1) =~= ms@.subrange(0, i as int));
            match &ms[i].expression {
                Some(e) => {
                    match self.note_uses(e) {
                        Ok(()) => {},
                        Err(x) => {
                            proof {
                                lemma_members_prefix_none(ms@, i + 1);
                            }
                            return Err(x);
                        },
                    }
                    proof {
                        let a = member_uses(ms@.subrange(0, i as int))->Some_0;
                        let b = expr_uses(*e)->Some_0;
                        assert(live0 + a + b =~= live0 + (a + b));
                    }
                },
                None => {
                    proof {
                        lemma_members_prefix_none(ms@, i + 1);
                    }
                    return Err(DceError::MissingMemberExpression);
                },
            }
            i = i + 1;
        }
        assert(ms@.subrange(0, ms@.len() as int) =~= ms@);
        Ok(())
    }

    /// Visits `input`; the variables it reads become live when inside a kept
    /// statement. The expression itself is returned unchanged.
    pub fn reconstruct_expression(&mut self, input: Expression) -> (r: Result<Expression, DceError>)
        ensures
            final(self).is_necessary == old(self).is_necessary,
            r is Ok ==> r == Ok::<Expression, DceError>(input),
            noted(
                old(self).live(),
                old(self).is_necessary,
                expr_uses(input),
                final(self).live(),
                match r {
                    Ok(_) => Ok(()),
                    Err(x) => Err(x),
                },
            ),
    {
        match self.note_uses(&input) {
            Ok(()) => Ok(input),
            Err(x) => Err(x),
        }
    }

    /// Visits every member of a struct construction; a shorthand member
    /// cannot occur after single assignment.
    pub fn reconstruct_struct_init(&mut self, input: StructExpression) -> (r: Result<Expression, DceError>)
        ensures
            final(self).is_necessary == old(self).is_necessary,
            r is Ok ==> r == Ok::<Expression, DceError>(Expression::Struct(input)),
            noted(
                old(self).live(),
                old(self).is_necessary,
                member_uses(input.members@),
                final(self).live(),
                match r {
                    Ok(_) => Ok(()),
                    Err(x) => Err(x),
                },
            ),
    {
        match self.note_members(&input.members) {
            Ok(()) => Ok(Expression::Struct(input)),
            Err(x) => Err(x),
        }
    }
}

impl DeadCodeEliminator {
    /// Whether the variables `place` defines include a live one.
    fn place_is_used(&self, place: &Expression) -> (r: Result<bool, DceError>)
        ensures
            match place_names(*place) {
                None => r == Err::<bool, DceError>(DceError::InvalidAssignPlace),
                Some(names) => r == Ok::<bool, DceError>(place_is_live(names, self.live())),
            },
    {
        match place {
            Expression::Identifier(name) => {
                let used = self.is_used(name);
                proof {
                    let names = seq![name@];
                    if used {
                        assert(self.live().contains(names[0]));
                    }
                }
                Ok(used)
            },
            Expression::Tuple(elements) => {
                let mut used = false;
                let mut i: usize = 0;
                while i < elements.len()
                    invariant
                        i <= elements.len(),
                        *place == Expression::Tuple(*elements),
                        forall|k: int| 0 <= k < i ==> #[trigger] elements@[k] is Identifier,
                        used == exists|k: int| 0 <= k < i && self.live().contains(#[trigger] elements@[k]->Identifier_0@),
                    decreases elements.len() - i,
                {
                    match &elements[i] {
                        Expression::Identifier(name) => {
                            if self.is_used(name) {
                                used = true;
                            }
                        },
                        _ => {
                            assert(!(elements@[i as int] is Identifier));
                            return Err(DceError::InvalidAssignPlace);
                        },
                    }
                    i = i + 1;
                }
                proof {
                    let names = elements@.map_values(|x: Expression| x->Identifier_0@);
                    if used {
                        let k = choose|k: int| 0 <= k < elements@.len() && self.live().contains(#[trigger] elements@[k]->Identifier_0@);
                        assert(names[k] == elements@[k]->Identifier_0@);
                    }
                    if place_is_live(names, self.live()) {
                        let k = choose|k: int| 0 <= k < names.len() && self.live().contains(#[trigger] names[k]);
                        assert(self.live().contains(elements@[k]->Identifier_0@));
                    }
                }
                Ok(used)
            },
            _ => Err(DceError::InvalidAssignPlace),
        }
    }

    /// Notes what a kept statement reads: its variables become live.
    fn note_necessary(&mut self, e: &Expression) -> (r: Result<(), DceError>)
        ensures
            !final(self).is_necessary,
            noted(old(self).live(), true, expr_uses(*e), final(self).live(), r),
    {
        self.is_necessary = true;
        let r = self.note_uses(e);
        self.is_necessary = false;
        r
    }

    fn note_necessary_list(&mut self, es: &Vec<Expression>) -> (r: Result<(), DceError>)
        ensures
            !final(self).is_necessary,
            noted(old(self).live(), true, list_uses(es@), final(self).live(), r),
    {
        self.is_necessary = true;
        let r = self.note_list(es);
        self.is_necessary = false;
        r
    }

    /// Notes what two expressions of a kept statement read, in order.
    fn note_necessary_pair(&mut self, a: &Expression, b: &Expression) -> (r: Result<(), DceError>)
        ensures
            !final(self).is_necessary,
            noted(old(self).live(), true, join_uses(expr_uses(*a), expr_uses(*b)), final(self).live(), r),
    {
        let ghost live0 = self.live();
        match self.note_necessary(a) {
            Ok(()) => {},
            Err(x) => {
                return Err(x);
            },
        }
        let r = self.note_necessary(b);
        proof {
            if r is Ok {
                let u = expr_uses(*a)->Some_0;
                let v = expr_uses(*b)->Some_0;
                assert(live0 + u + v =~= live0 + (u + v));
            }
        }
        r
    }

    /// An assertion is always kept.
    pub fn reconstruct_assert(&mut self, input: AssertVariant) -> (r: Result<Statement, DceError>)
        ensures
            stmt_done(Statement::Assert(input), old(self).live(), *final(self), r),
    {
        let n = match &input {
            AssertVariant::Assert(e) => self.note_necessary(e),
            AssertVariant::AssertEq(a, b) => self.note_necessary_pair(a, b),
            AssertVariant::AssertNeq(a, b) => self.note_necessary_pair(a, b),
        };
        match n {
            Ok(()) => Ok(Statement::Assert(input)),
            Err(x) => Err(x),
        }
    }

    /// An assignment is kept when a variable it defines is live; otherwise it
    /// becomes the no-op statement.
    pub fn reconstruct_assign(&mut self, place: Expression, value: Expression) -> (r: Result<Statement, DceError>)
        requires
            !old(self).is_necessary,
        ensures
            stmt_done(Statement::Assign { place, value }, old(self).live(), *final(self), r),
    {
        let lhs_is_used = match self.place_is_used(&place) {
            Ok(used) => used,
            Err(x) => {
                return Err(x);
            },
        };
        if lhs_is_used {
            match self.note_necessary(&value) {
                Ok(()) => Ok(Statement::Assign { place, value }),
                Err(x) => Err(x),
            }
        } else {
            Ok(Statement::dummy())
        }
    }

    /// A decrement of a state mapping is always kept.
    pub fn reconstruct_decrement(&mut self, mapping: String, index: Expression, amount: Expression) -> (r: Result<
        Statement,
        DceError,
    >)
        ensures
            stmt_done(Statement::Decrement { mapping, index, amount }, old(self).live(), *final(self), r),
    {
        match self.note_necessary_pair(&index, &amount) {
            Ok(()) => Ok(Statement::Decrement { mapping, index, amount }),
            Err(x) => Err(x),
        }
    }

    /// An increment of a state mapping is always kept.
    pub fn reconstruct_increment(&mut self, mapping: String, index: Expression, amount: Expression) -> (r: Result<
        Statement,
        DceError,
    >)
        ensures
            stmt_done(Statement::Increment { mapping, index, amount }, old(self).live(), *final(self), r),
    {
        match self.note_necessary_pair(&index, &amount) {
            Ok(()) => Ok(Statement::Increment { mapping, index, amount }),
            Err(x) => Err(x),
        }
    }

    /// An expression statement is a call, and always kept.
    pub fn reconstruct_expression_statement(&mut self, expression: Expression) -> (r: Result<Statement, DceError>)
        ensures
            stmt_done(Statement::Expression(expression), old(self).live(), *final(self), r),
    {
        match expression {
            Expression::Call(c) => match self.note_necessary_list(&c.arguments) {
                Ok(()) => Ok(Statement::Expression(Expression::Call(c))),
                Err(x) => Err(x),
            },
            _ => Err(DceError::NonCallExpressionStatement),
        }
    }

    /// A return statement is always kept, with the arguments of its finalize
    /// block.
    pub fn reconstruct_return(&mut self, expression: Expression, finalize_arguments: Option<Vec<Expression>>) -> (r:
        Result<Statement, DceError>)
        ensures
            stmt_done(Statement::Return { expression, finalize_arguments }, old(self).live(), *final(self), r),
    {
        let ghost live0 = self.live();
        match self.note_necessary(&expression) {
            Ok(()) => {},
            Err(x) => {
                return Err(x);
            },
        }
        match &finalize_arguments {
            Some(args) => {
                match self.note_necessary_list(args) {
                    Ok(()) => {},
                    Err(x) => {
                        return Err(x);
                    },
                }
                proof {
                    let u = expr_uses(expression)->Some_0;
                    let v = list_uses(args@)->Some_0;
                    assert(live0 + u + v =~= live0 + (u + v));
                }
            },
            None => {},
        }
        Ok(Statement::Return { expression, finalize_arguments })
    }

    /// Processes one statement, given what is live after it.
    pub fn reconstruct_statement(&mut self, input: Statement) -> (r: Result<Statement, DceError>)
        requires
            !old(self).is_necessary,
        ensures
            stmt_done(input, old(self).live(), *final(self), r),
        decreases input, 1int,
    {
        match input {
            Statement::Assert(v) => self.reconstruct_assert(v),
            Statement::Assign { place, value } => self.reconstruct_assign(place, value),
            Statement::Block(b) => match self.reconstruct_block(b) {
                Ok(b2) => Ok(Statement::Block(b2)),
                Err(x) => Err(x),
            },
            Statement::Conditional { .. } => Err(DceError::UnexpectedConditional),
            Statement::Console(_) => Err(DceError::UnexpectedConsole),
            Statement::Definition { .. } => Err(DceError::UnexpectedDefinition),
            Statement::Iteration { .. } => Err(DceError::UnexpectedIteration),
            Statement::Decrement { mapping, index, amount } => self.reconstruct_decrement(mapping, index, amount),
            Statement::Increment { mapping, index, amount } => self.reconstruct_increment(mapping, index, amount),
            Statement::Expression(e) => self.reconstruct_expression_statement(e),
            Statement::Return { expression, finalize_arguments } => self.reconstruct_return(
                expression,
                finalize_arguments,
            ),
        }
    }

    /// Processes the statements of a block from last to first, so that each
    /// is seen with what the statements after it read.
    pub fn reconstruct_block(&mut self, block: Block) -> (r: Result<Block, DceError>)
        requires
            !old(self).is_necessary,
        ensures
            match steps(block.statements@, old(self).live()) {
                Ok(l) => {
                    &&& r is Ok
                    &&& final(self).live() == l
                    &&& !final(self).is_necessary
                    &&& block_out(block.statements@, old(self).live(), r->Ok_0.statements@)
                },
                Err(x) => r == Err::<Block, DceError>(x),
            },
        decreases block, 0int,
    {
        let ghost ss = block.statements@;
        let ghost n = ss.len() as int;
        let ghost live0 = self.live();
        let mut input = block.statements;
        let mut statements: Vec<Statement> = Vec::new();
        assert(ss.subrange(n, n) =~= Seq::<Statement>::empty());
        while input.len() > 0
            invariant
                ss == block.statements@,
                n == ss.len(),
                live0 == old(self).live(),
                input.len() <= n,
                input@ == ss.subrange(0, input.len() as int),
                steps(ss.subrange(input.len() as int, n), live0) == Ok::<Set<Seq<char>>, DceError>(self.live()),
                block_out(ss.subrange(input.len() as int, n), live0, statements@),
                !self.is_necessary,
            decreases input.len(),
        {
            let ghost j = input.len() - 1;
            let ghost rest = statements@;
            let statement = input.pop().unwrap();
            assert(statement == ss[j]);
            let ghost suffix = ss.subrange(j, n);
            assert(suffix.subrange(1, suffix.len() as int) =~= ss.subrange(j + 1, n));
            assert(suffix[0] == ss[j]);
            match self.reconstruct_statement(statement) {
                Ok(s) => {
                    statements.insert(0, s);
                    assert(statements@.subrange(1, statements@.len() as int) =~= rest);
                },
                Err(x) => {
                    proof {
                        lemma_steps_suffix_err(ss, j, live0);
                    }
                    return Err(x);
                },
            }
        }
        assert(ss.subrange(0, n) =~= ss);
        Ok(Block { statements })
    }

    /// Removes the dead assignments of a function body; nothing is live
    /// after its last statement.
    pub fn do_pass(body: Block) -> (r: Result<Block, DceError>)
        ensures
            match steps(body.statements@, Set::<Seq<char>>::empty()) {
                Ok(_) => r is Ok && block_out(body.statements@, Set::<Seq<char>>::empty(), r->Ok_0.statements@),
                Err(x) => r == Err::<Block, DceError>(x),
            },
    {
        let mut eliminator = DeadCodeEliminator::new();
        eliminator.reconstruct_block(body)
    }
}

/// Elimination is idempotent on a statement: what it makes of `s` is left
/// as it is by a second run, with the same live set before it.
pub proof fn lemma_stmt_idempotent(s: Statement, live: Set<Seq<char>>, out: Statement)
    requires
        step(s, live) is Ok,
        stmt_out(s, live, out),
    ensures
        step(out, live) == step(s, live),
        stmt_out(out, live, out),
    decreases s,
{
    match s {
        Statement::Assign { place, value } => {
            if !place_is_live(place_names(place)->Some_0, live) {
                let b2 = out->Block_0;
                assert(b2.statements@ =~= Seq::<Statement>::empty());
            }
        },
        Statement::Block(b) => {
            lemma_block_idempotent(b.statements@, live, out->Block_0.statements@);
        },
        _ => {},
    }
}

/// Running dead code elimination on its own output changes nothing: every
/// statement it kept is kept again, and the live sets agree.
pub proof fn lemma_block_idempotent(ss: Seq<Statement>, live: Set<Seq<char>>, outs: Seq<Statement>)
    requires
        steps(ss, live) is Ok,
        block_out(ss, live, outs),
    ensures
        steps(outs, live) == steps(ss, live),
        block_out(outs, live, outs),
    decreases ss,
{
    if ss.len() > 0 {
        let tail = ss.subrange(1, ss.len() as int);
        let out_tail = outs.subrange(1, outs.len() as int);
        assert(steps(tail, live) is Ok) by {
            if steps(tail, live) is Err {
                assert(steps(ss, live) is Err);
            }
        }
        lemma_block_idempotent(tail, live, out_tail);
        let after = steps(tail, live)->Ok_0;
        lemma_stmt_idempotent(ss[0], after, outs[0]);
        assert(out_tail.subrange(1, out_tail.len() as int) =~= outs.subrange(1, outs.len() as int).subrange(1, out_tail.len() as int));
    }
}

/// The set `o` holds, or the empty set.
pub open spec fn set_or_empty(o: Option<Set<Seq<char>>>) -> Set<Seq<char>> {
    match o {
        Some(u) => u,
        None => Set::empty(),
    }
}

/// The variables a statement reads.
pub open spec fn stmt_reads(s: Statement) -> Set<Seq<char>>
    decreases s,
{
    match s {
        Statement::Assert(v) => set_or_empty(assert_uses(v)),
        Statement::Assign { place: _, value } => set_or_empty(expr_uses(value)),
        Statement::Block(b) => block_reads(b.statements@),
        Statement::Decrement { mapping: _, index, amount } => set_or_empty(join_uses(expr_uses(index), expr_uses(amount))),
        Statement::Increment { mapping: _, index, amount } => set_or_empty(join_uses(expr_uses(index), expr_uses(amount))),
        Statement::Expression(Expression::Call(c)) => set_or_empty(list_uses(c.arguments@)),
        Statement::Return { expression, finalize_arguments } => set_or_empty(return_uses(expression, finalize_arguments)),
        _ => Set::empty(),
    }
}

/// The variables a list of statements reads.
pub open spec fn block_reads(ss: Seq<Statement>) -> Set<Seq<char>>
    decreases ss,
{
    if ss.len() == 0 {
        Set::empty()
    } else {
        stmt_reads(ss[0]) + block_reads(ss.subrange(1, ss.len() as int))
    }
}

/// Going backwards over a statement only adds live variables, among them
/// every variable its output reads.
proof fn lemma_stmt_reads_live(s: Statement, live: Set<Seq<char>>, out: Statement)
    requires
        step(s, live) is Ok,
        stmt_out(s, live, out),
    ensures
        live.subset_of(step(s, live)->Ok_0),
        stmt_reads(out).subset_of(step(s, live)->Ok_0),
    decreases s,
{
    match s {
        Statement::Assign { place, value } => {
            if !place_is_live(place_names(place)->Some_0, live) {
                let b2 = out->Block_0;
                assert(b2.statements@ =~= Seq::<Statement>::empty());
            }
        },
        Statement::Block(b) => {
            lemma_block_reads_live(b.statements@, live, out->Block_0.statements@);
        },
        _ => {},
    }
}

proof fn lemma_block_reads_live(ss: Seq<Statement>, live: Set<Seq<char>>, outs: Seq<Statement>)
    requires
        steps(ss, live) is Ok,
        block_out(ss, live, outs),
    ensures
        live.subset_of(steps(ss, live)->Ok_0),
        block_reads(outs).subset_of(steps(ss, live)->Ok_0),
    decreases ss,
{
    if ss.len() > 0 {
        let tail = ss.subrange(1, ss.len() as int);
        assert(steps(tail, live) is Ok) by {
            if steps(tail, live) is Err {
                assert(steps(ss, live) is Err);
            }
        }
        lemma_block_reads_live(tail, live, outs.subrange(1, outs.len() as int));
        lemma_stmt_reads_live(ss[0], steps(tail, live)->Ok_0, outs[0]);
    } else {
        assert(outs.len() == 0);
    }
}

/// The statements from `j` on are processed as a block of their own.
proof fn lemma_block_out_suffix(ss: Seq<Statement>, live: Set<Seq<char>>, outs: Seq<Statement>, j: int)
    requires
        0 <= j <= ss.len(),
        block_out(ss, live, outs),
    ensures
        block_out(ss.subrange(j, ss.len() as int), live, outs.subrange(j, outs.len() as int)),
    decreases j,
{
    if j > 0 {
        let tail = ss.subrange(1, ss.len() as int);
        let out_tail = outs.subrange(1, outs.len() as int);
        lemma_block_out_suffix(tail, live, out_tail, j - 1);
        assert(tail.subrange(j - 1, tail.len() as int) =~= ss.subrange(j, ss.len() as int));
        assert(out_tail.subrange(j - 1, out_tail.len() as int) =~= outs.subrange(j, outs.len() as int));
    } else {
        assert(ss.subrange(0, ss.len() as int) =~= ss);
        assert(outs.subrange(0, outs.len() as int) =~= outs);
    }
}

/// The live set before the statements from `j` on holds the live set before
/// those from `k` on, for `j <= k`.
proof fn lemma_suffix_live_grows(ss: Seq<Statement>, live: Set<Seq<char>>, outs: Seq<Statement>, j: int, k: int)
    requires
        0 <= j <= k <= ss.len(),
        steps(ss, live) is Ok,
        block_out(ss, live, outs),
    ensures
        steps(ss.subrange(k, ss.len() as int), live) is Ok,
        steps(ss.subrange(j, ss.len() as int), live) is Ok,
        steps(ss.subrange(k, ss.len() as int), live)->Ok_0.subset_of(steps(ss.subrange(j, ss.len() as int), live)->Ok_0),
    decreases k - j,
{
    let n = ss.len() as int;
    if steps(ss.subrange(k, n), live) is Err {
        lemma_steps_suffix_err(ss, k, live);
    }
    if steps(ss.subrange(j, n), live) is Err {
        lemma_steps_suffix_err(ss, j, live);
    }
    if j < k {
        lemma_suffix_live_grows(ss, live, outs, j + 1, k);
        let suffix = ss.subrange(j, n);
        assert(suffix.subrange(1, suffix.len() as int) =~= ss.subrange(j + 1, n));
        lemma_block_out_suffix(ss, live, outs, j);
        lemma_stmt_reads_live(suffix[0], steps(ss.subrange(j + 1, n), live)->Ok_0, outs.subrange(j, outs.len() as int)[0]);
    }
}

/// No statement that elimination keeps reads a variable of an assignment it
/// removed: a removed assignment at `j` defines nothing that the output
/// statement at any later `k` reads.
pub proof fn lemma_no_read_of_removed(ss: Seq<Statement>, live: Set<Seq<char>>, outs: Seq<Statement>, j: int, k: int)
    requires
        steps(ss, live) is Ok,
        block_out(ss, live, outs),
        0 <= j < k < ss.len(),
        ss[j] is Assign,
        outs[j].is_dummy(),
    ensures
        forall|i: int|
            0 <= i < place_names(ss[j]->Assign_place)->Some_0.len() ==> !stmt_reads(outs[k]).contains(
                #[trigger] place_names(ss[j]->Assign_place)->Some_0[i],
            ),
{
    let n = ss.len() as int;
    lemma_suffix_live_grows(ss, live, outs, j + 1, k);
    lemma_block_out_suffix(ss, live, outs, j);
    lemma_block_out_suffix(ss, live, outs, k);
    let after_j = steps(ss.subrange(j + 1, n), live)->Ok_0;
    let suffix_j = ss.subrange(j, n);
    assert(suffix_j.subrange(1, suffix_j.len() as int) =~= ss.subrange(j + 1, n));
    assert(suffix_j[0] == ss[j]);
    assert(outs.subrange(j, outs.len() as int)[0] == outs[j]);
    // The removed assignment defined nothing live after it.
    assert(stmt_out(ss[j], after_j, outs[j]));
    assert(step(ss[j], after_j) is Ok) by {
        if step(ss[j], after_j) is Err {
            lemma_steps_suffix_err(ss, j, live);
        }
    }
    let names = place_names(ss[j]->Assign_place)->Some_0;
    assert(!place_is_live(names, after_j));
    // What the statement at `k` reads is live before it.
    let suffix_k = ss.subrange(k, n);
    assert(suffix_k.subrange(1, suffix_k.len() as int) =~= ss.subrange(k + 1, n));
    assert(outs.subrange(k, outs.len() as int)[0] == outs[k]);
    lemma_suffix_live_grows(ss, live, outs, k + 1, k + 1);
    lemma_stmt_reads_live(ss[k], steps(ss.subrange(k + 1, n), live)->Ok_0, outs[k]);
    assert(stmt_reads(outs[k]).subset_of(after_j));
}

} // verus!
