//! Lowering: walks each statement's expression tree and emits Cranelift IR
//! through a `FunctionBuilder`, keeping one storage slot per variable name.
use vstd::prelude::*;
use vstd::string::StringExecFns;

use cranelift::frontend::FunctionBuilder;
use cranelift::prelude::{InstBuilder, Value, Variable};

use crate::parser::{Expr, OpType0, OpType1, OpType2, OperatorToken, OperatorType};

verus! {

#[verifier::external_type_specification]
#[verifier::external_body]
pub struct ExFunctionBuilder<'a>(FunctionBuilder<'a>);

#[verifier::external_type_specification]
#[verifier::external_body]
pub struct ExValue(Value);

#[verifier::external_type_specification]
#[verifier::external_body]
pub struct ExVariable(Variable);

/// An integer expression as the emitted IR computes it: `i32` constants
/// combined by wrapping arithmetic.
pub enum Term {
    Const(i32),
    Add(Box<Term>, Box<Term>),
    Sub(Box<Term>, Box<Term>),
    Mul(Box<Term>, Box<Term>),
}

/// `i` reduced into the `i32` range, as two's complement arithmetic wraps it.
pub open spec fn wrap(i: int) -> i32 {
    ((i - i32::MIN) % 0x1_0000_0000 + i32::MIN) as i32
}

/// The value a term computes.
pub open spec fn eval(t: Term) -> i32
    decreases t,
{
    match t {
        Term::Const(n) => n,
        Term::Add(a, b) => wrap(eval(*a) + eval(*b)),
        Term::Sub(a, b) => wrap(eval(*a) - eval(*b)),
        Term::Mul(a, b) => wrap(eval(*a) * eval(*b)),
    }
}

/// The variables whose type the builder holds, by index.
pub uninterp spec fn declared_slots(b: FunctionBuilder) -> Set<nat>;

/// Whether the builder stands at a block.
pub uninterp spec fn positioned(b: FunctionBuilder) -> bool;

/// Whether the block where the builder stands ends in a terminator.
pub uninterp spec fn block_filled(b: FunctionBuilder) -> bool;

/// The term that a value of the builder's function computes; `None` for a
/// value that the builder did not make with the instructions below.
pub uninterp spec fn term_of(b: FunctionBuilder, v: Value) -> Option<Term>;

/// The term of the value last defined for the variable of index `index` in
/// the current block; `None` when it has no definition there.
pub uninterp spec fn slot_term(b: FunctionBuilder, index: nat) -> Option<Term>;

/// The term that the block's return instruction returns, once there is one.
pub uninterp spec fn returned_term(b: FunctionBuilder) -> Option<Term>;

/// Every value made before keeps its term.
pub open spec fn keeps_values(b0: FunctionBuilder, b1: FunctionBuilder) -> bool {
    forall|v: Value| #[trigger] term_of(b0, v) is Some ==> term_of(b1, v) == term_of(b0, v)
}

/// Every variable but the one of index `index` keeps its definition.
pub open spec fn keeps_slots_except(b0: FunctionBuilder, b1: FunctionBuilder, index: int) -> bool {
    forall|i: nat| i != index ==> #[trigger] slot_term(b1, i) == slot_term(b0, i)
}

/// The declared variables, the position and the returned term are as they were.
pub open spec fn keeps_frame(b0: FunctionBuilder, b1: FunctionBuilder) -> bool {
    &&& declared_slots(b1) == declared_slots(b0)
    &&& positioned(b1) == positioned(b0)
    &&& block_filled(b1) == block_filled(b0)
    &&& returned_term(b1) == returned_term(b0)
}

/// Relies on `FunctionBuilder::current_block`: `Some` exactly when the builder
/// stands at a block.
#[verifier::external_body]
fn has_current_block(b: &FunctionBuilder) -> (r: bool)
    ensures
        r == positioned(*b),
{
    b.current_block().is_some()
}

/// Relies on `FunctionBuilder::is_filled`, which reads the current block and
/// so needs one.
#[verifier::external_body]
fn current_block_filled(b: &FunctionBuilder) -> (r: bool)
    requires
        positioned(*b),
    ensures
        r == block_filled(*b),
{
    b.is_filled()
}

/// Relies on `Variable::with_u32`, which takes an index below `u32::MAX`, and
/// on `FunctionBuilder::declare_var`, which gives that variable the type
/// `i32`; a variable may be declared once and has no definition yet.
#[verifier::external_body]
fn declare_slot(b: &mut FunctionBuilder, index: u32)
    requires
        index < u32::MAX,
        !declared_slots(*old(b)).contains(index as nat),
    ensures
        declared_slots(*final(b)) == declared_slots(*old(b)).insert(index as nat),
        positioned(*final(b)) == positioned(*old(b)),
        block_filled(*final(b)) == block_filled(*old(b)),
        returned_term(*final(b)) == returned_term(*old(b)),
        keeps_values(*old(b), *final(b)),
        keeps_slots_except(*old(b), *final(b), index as int),
        slot_term(*final(b), index as nat) is None,
{
    b.declare_var(Variable::with_u32(index), cranelift::prelude::types::I32)
}

/// Relies on `FunctionBuilder::use_var`: for a variable defined in the
/// current block, the value of its last definition there.
#[verifier::external_body]
fn read_slot(b: &mut FunctionBuilder, index: u32) -> (r: Value)
    requires
        index < u32::MAX,
        declared_slots(*old(b)).contains(index as nat),
        positioned(*old(b)),
        slot_term(*old(b), index as nat) is Some,
    ensures
        term_of(*final(b), r) == slot_term(*old(b), index as nat),
        keeps_frame(*old(b), *final(b)),
        keeps_values(*old(b), *final(b)),
        keeps_slots_except(*old(b), *final(b), -1),
{
    b.use_var(Variable::with_u32(index))
}

/// Relies on `FunctionBuilder::def_var`: a new definition, in the current
/// block, of a declared variable by an `i32` value of this builder.
#[verifier::external_body]
fn write_slot(b: &mut FunctionBuilder, index: u32, v: Value)
    requires
        index < u32::MAX,
        declared_slots(*old(b)).contains(index as nat),
        positioned(*old(b)),
        term_of(*old(b), v) is Some,
    ensures
        slot_term(*final(b), index as nat) == term_of(*old(b), v),
        keeps_frame(*old(b), *final(b)),
        keeps_values(*old(b), *final(b)),
        keeps_slots_except(*old(b), *final(b), index as int),
{
    b.def_var(Variable::with_u32(index), v)
}

/// Relies on `InstBuilder::iconst`: an `i32` constant appended to the current
/// block, which must not be filled.
#[verifier::external_body]
fn constant(b: &mut FunctionBuilder, n: i32) -> (r: Value)
    requires
        positioned(*old(b)),
        !block_filled(*old(b)),
    ensures
        term_of(*final(b), r) == Some(Term::Const(n)),
        keeps_frame(*old(b), *final(b)),
        keeps_values(*old(b), *final(b)),
        keeps_slots_except(*old(b), *final(b), -1),
{
    b.ins().iconst(cranelift::prelude::types::I32, n as i64)
}

/// Relies on `InstBuilder::iadd`: a wrapping addition of two values of this
/// builder, appended to the current block.
#[verifier::external_body]
fn add_values(b: &mut FunctionBuilder, x: Value, y: Value) -> (r: Value)
    requires
        positioned(*old(b)),
        !block_filled(*old(b)),
        term_of(*old(b), x) is Some,
        term_of(*old(b), y) is Some,
    ensures
        term_of(*final(b), r) == Some(
            Term::Add(Box::new(term_of(*old(b), x)->0), Box::new(term_of(*old(b), y)->0)),
        ),
        keeps_frame(*old(b), *final(b)),
        keeps_values(*old(b), *final(b)),
        keeps_slots_except(*old(b), *final(b), -1),
{
    b.ins().iadd(x, y)
}

/// Relies on `InstBuilder::isub`: a wrapping subtraction of two values of this
/// builder, appended to the current block.
#[verifier::external_body]
fn sub_values(b: &mut FunctionBuilder, x: Value, y: Value) -> (r: Value)
    requires
        positioned(*old(b)),
        !block_filled(*old(b)),
        term_of(*old(b), x) is Some,
        term_of(*old(b), y) is Some,
    ensures
        term_of(*final(b), r) == Some(
            Term::Sub(Box::new(term_of(*old(b), x)->0), Box::new(term_of(*old(b), y)->0)),
        ),
        keeps_frame(*old(b), *final(b)),
        keeps_values(*old(b), *final(b)),
        keeps_slots_except(*old(b), *final(b), -1),
{
    b.ins().isub(x, y)
}

/// Relies on `InstBuilder::imul`: a wrapping multiplication of two values of
/// this builder, appended to the current block.
#[verifier::external_body]
fn mul_values(b: &mut FunctionBuilder, x: Value, y: Value) -> (r: Value)
    requires
        positioned(*old(b)),
        !block_filled(*old(b)),
        term_of(*old(b), x) is Some,
        term_of(*old(b), y) is Some,
    ensures
        term_of(*final(b), r) == Some(
            Term::Mul(Box::new(term_of(*old(b), x)->0), Box::new(term_of(*old(b), y)->0)),
        ),
        keeps_frame(*old(b), *final(b)),
        keeps_values(*old(b), *final(b)),
        keeps_slots_except(*old(b), *final(b), -1),
{
    b.ins().imul(x, y)
}

/// Relies on `InstBuilder::return_`: a return of one value of this builder,
/// appended to the current block, which is then filled.
#[verifier::external_body]
fn emit_return(b: &mut FunctionBuilder, v: Value)
    requires
        positioned(*old(b)),
        !block_filled(*old(b)),
        term_of(*old(b), v) is Some,
    ensures
        returned_term(*final(b)) == term_of(*old(b), v),
        declared_slots(*final(b)) == declared_slots(*old(b)),
        positioned(*final(b)),
        block_filled(*final(b)),
{
    b.ins().return_(&[v]);
}

/// Why a statement does not lower.
#[derive(Clone, Debug)]
pub enum LowerError {
    /// An assignment whose left side is not an identifier.
    InvalidAssignmentTarget,
    /// An identifier read before any assignment to it.
    UseOfUndeclaredVariable(String),
    /// An operator with no IR primitive, by its text.
    UnsupportedOperator(String),
    /// An assignment below the root of a statement.
    NestedAssignmentOperator,
    /// A new variable when every slot index is taken.
    TooManyVariables,
}

pub open spec fn is_assignment(op: OperatorToken) -> bool {
    op.op_type is OpType2
}

/// Whether `op` has an IR primitive: add, subtract or multiply.
pub open spec fn has_primitive(op: OperatorToken) -> bool {
    op.op_type == OperatorType::OpType0(OpType0::Mul) || op.op_type is OpType1
}

/// Whether an assignment operator occurs anywhere in `e`.
pub open spec fn has_assignment(e: Expr) -> bool
    decreases e,
{
    match e {
        Expr::Operation(o) => is_assignment(o.operator) || has_assignment(*o.expr1)
            || has_assignment(*o.expr2),
        _ => false,
    }
}

/// Whether an assignment operator occurs below the root of `e`.
pub open spec fn has_nested_assignment(e: Expr) -> bool {
    match e {
        Expr::Operation(o) => has_assignment(*o.expr1) || has_assignment(*o.expr2),
        _ => false,
    }
}

/// The outcome of lowering `e` for its value, with the variables `names`
/// declared: operands first, left to right, then the operator.
pub open spec fn value_result(e: Expr, names: Seq<Seq<char>>) -> Result<(), LowerError>
    decreases e,
{
    match e {
        Expr::NumberToken(_) => Ok(()),
        Expr::IdentifierToken(i) => if names.contains(i.text@) {
            Ok(())
        } else {
            Err(LowerError::UseOfUndeclaredVariable(i.text))
        },
        Expr::Operation(o) => match value_result(*o.expr1, names) {
            Err(x) => Err(x),
            Ok(()) => match value_result(*o.expr2, names) {
                Err(x) => Err(x),
                Ok(()) => if has_primitive(o.operator) {
                    Ok(())
                } else {
                    Err(LowerError::UnsupportedOperator(o.operator.text))
                },
            },
        },
    }
}

/// The outcome of lowering the statement `e` with the variables `names`
/// declared: the variables declared afterwards, or the error.
pub open spec fn lower_result(e: Expr, names: Seq<Seq<char>>) -> Result<
    Seq<Seq<char>>,
    LowerError,
> {
    if has_nested_assignment(e) {
        Err(LowerError::NestedAssignmentOperator)
    } else {
        match e {
            Expr::Operation(o) => if is_assignment(o.operator) {
                match *o.expr1 {
                    Expr::IdentifierToken(i) => match value_result(*o.expr2, names) {
                        Err(x) => Err(x),
                        Ok(()) => if names.contains(i.text@) {
                            Ok(names)
                        } else if names.len() + 1 >= u32::MAX {
                            Err(LowerError::TooManyVariables)
                        } else {
                            Ok(names.push(i.text@))
                        },
                    },
                    _ => Err(LowerError::InvalidAssignmentTarget),
                }
            } else {
                match value_result(e, names) {
                    Ok(()) => Ok(names),
                    Err(x) => Err(x),
                }
            },
            _ => match value_result(e, names) {
                Ok(()) => Ok(names),
                Err(x) => Err(x),
            },
        }
    }
}

/// The outcome of lowering the statements `es` in order, with the variables
/// `names` declared before the first one.
pub open spec fn lower_all(es: Seq<Expr>, names: Seq<Seq<char>>) -> Result<
    Seq<Seq<char>>,
    LowerError,
>
    decreases es.len(),
{
    if es.len() == 0 {
        Ok(names)
    } else {
        match lower_all(es.drop_last(), names) {
            Ok(ns) => lower_result(es.last(), ns),
            Err(x) => Err(x),
        }
    }
}

/// Variable names, each with the storage slot of its index.
pub struct VariableTable {
    pub names: Vec<String>,
}

impl View for VariableTable {
    type V = Seq<Seq<char>>;

    open spec fn view(&self) -> Seq<Seq<char>> {
        self.names@.map_values(|s: String| s@)
    }
}

impl VariableTable {
    /// Each name has one slot.
    pub open spec fn wf(&self) -> bool {
        self@.no_duplicates()
    }

    pub fn new() -> (r: Self)
        ensures
            r.wf(),
            r@ == Seq::<Seq<char>>::empty(),
    {
        let r = VariableTable { names: Vec::new() };
        assert(r@ =~= Seq::<Seq<char>>::empty());
        r
    }

    pub fn len(&self) -> (r: usize)
        ensures
            r == self@.len(),
    {
        self.names.len()
    }

    /// The slot of `name`, if it has one.
    pub fn find(&self, name: &String) -> (r: Option<usize>)
        requires
            self.wf(),
        ensures
            match r {
                Some(i) => i < self@.len() && self@[i as int] == name@,
                None => !self@.contains(name@),
            },
    {
        let mut i: usize = 0;
        while i < self.names.len()
            invariant
                i <= self.names@.len(),
                forall|j: int| 0 <= j < i ==> self@[j] != name@,
            decreases self.names@.len() - i,
        {
            if self.names[i] == *name {
                return Some(i);
            }
            i = i + 1;
        }
        proof {
            if self@.contains(name@) {
                let j = choose|j: int| 0 <= j < self@.len() && self@[j] == name@;
                assert(self@[j] != name@);
            }
        }
        None
    }

    /// Gives `name`, absent so far, the next slot.
    fn insert(&mut self, name: String)
        requires
            old(self).wf(),
            !old(self)@.contains(name@),
        ensures
            final(self).wf(),
            final(self)@ == old(self)@.push(name@),
    {
        self.names.push(name);
        assert(self@ =~= old(self)@.push(name@));
    }
}

/// Whether an assignment operator occurs anywhere in `e`.
fn contains_assignment(e: &Expr) -> (r: bool)
    ensures
        r == has_assignment(*e),
    decreases e,
{
    match e {
        Expr::Operation(o) => matches!(o.operator.op_type, OperatorType::OpType2(_)) || contains_assignment(&o.expr1)
            || contains_assignment(&o.expr2),
        _ => false,
    }
}

/// The term an expression computes when each variable of `names` holds the
/// term of the same index in `terms`.
pub open spec fn expr_term(e: Expr, names: Seq<Seq<char>>, terms: Seq<Term>) -> Term
    decreases e,
{
    match e {
        Expr::NumberToken(n) => Term::Const(n.num),
        Expr::IdentifierToken(i) => terms[names.index_of(i.text@)],
        Expr::Operation(o) => {
            let l = Box::new(expr_term(*o.expr1, names, terms));
            let r = Box::new(expr_term(*o.expr2, names, terms));
            match o.operator.op_type {
                OperatorType::OpType0(OpType0::Mul) => Term::Mul(l, r),
                OperatorType::OpType1(OpType1::Add) => Term::Add(l, r),
                OperatorType::OpType1(OpType1::Sub) => Term::Sub(l, r),
                _ => Term::Const(0),
            }
        },
    }
}

/// The terms of the variables after the statement `e`, for a statement that
/// lowers: `x = e` gives `x` the term of `e`, `x += e` and `x -= e` add it to
/// or subtract it from the term `x` held, a new variable holding 0 before;
/// any other statement changes no variable.
pub open spec fn statement_terms(e: Expr, names: Seq<Seq<char>>, terms: Seq<Term>) -> Seq<Term> {
    match e {
        Expr::Operation(o) => if is_assignment(o.operator) {
            match *o.expr1 {
                Expr::IdentifierToken(i) => {
                    let rhs = expr_term(*o.expr2, names, terms);
                    let known = names.contains(i.text@);
                    let base = if known {
                        terms
                    } else {
                        terms.push(Term::Const(0))
                    };
                    let k = if known {
                        names.index_of(i.text@)
                    } else {
                        names.len() as int
                    };
                    let t = match o.operator.op_type {
                        OperatorType::OpType2(OpType2::AddEq) => Term::Add(
                            Box::new(base[k]),
                            Box::new(rhs),
                        ),
                        OperatorType::OpType2(OpType2::SubEq) => Term::Sub(
                            Box::new(base[k]),
                            Box::new(rhs),
                        ),
                        _ => rhs,
                    };
                    base.update(k, t)
                },
                _ => terms,
            }
        } else {
            terms
        },
        _ => terms,
    }
}

/// The terms of the variables after the statements `es`, for statements that
/// lower, from the variables `names` holding `terms`.
pub open spec fn program_terms(es: Seq<Expr>, names: Seq<Seq<char>>, terms: Seq<Term>) -> Seq<
    Term,
>
    decreases es.len(),
{
    if es.len() == 0 {
        terms
    } else {
        let before = program_terms(es.drop_last(), names, terms);
        match lower_all(es.drop_last(), names) {
            Ok(ns) => statement_terms(es.last(), ns, before),
            Err(_) => before,
        }
    }
}

/// The term a function body returns: the term of `return_var`, or 0 when it
/// has no slot.
pub open spec fn result_term(names: Seq<Seq<char>>, terms: Seq<Term>) -> Term {
    if names.contains("return_var"@) {
        terms[names.index_of("return_var"@)]
    } else {
        Term::Const(0)
    }
}

proof fn lemma_index_of_unique(names: Seq<Seq<char>>, k: int)
    requires
        names.no_duplicates(),
        0 <= k < names.len(),
    ensures
        names.index_of(names[k]) == k,
{
    let j = names.index_of(names[k]);
    assert(0 <= j < names.len() && names[j] == names[k]);
}

/// Emits the IR of one function body into a builder.
pub struct FunctionTranslator<'a> {
    pub builder: FunctionBuilder<'a>,
    pub variables: VariableTable,
}

impl<'a> FunctionTranslator<'a> {
    /// The builder stands in an open block, the declared variables are
    /// exactly the slots of the table, and each is defined.
    pub open spec fn wf(&self) -> bool {
        &&& self.variables.wf()
        &&& self.variables@.len() < u32::MAX
        &&& positioned(self.builder)
        &&& !block_filled(self.builder)
        &&& forall|i: nat| #[trigger]
            declared_slots(self.builder).contains(i) <==> i < self.variables@.len()
        &&& forall|i: nat| i < self.variables@.len() ==> (#[trigger] slot_term(self.builder, i)) is Some
    }

    /// The terms that the variables hold, by slot.
    pub open spec fn terms(&self) -> Seq<Term> {
        Seq::new(self.variables@.len(), |i: int| slot_term(self.builder, i as nat)->0)
    }

    /// A translator over `builder`, which must have no variable declared. It
    /// is `None` unless the builder stands in a block with no terminator.
    pub fn new(builder: FunctionBuilder<'a>) -> (r: Option<Self>)
        requires
            declared_slots(builder) == Set::<nat>::empty(),
        ensures
            r is Some <==> positioned(builder) && !block_filled(builder),
            r is Some ==> r->0.wf() && r->0.variables@ == Seq::<Seq<char>>::empty()
                && r->0.builder == builder,
    {
        if !has_current_block(&builder) {
            return None;
        }
        if current_block_filled(&builder) {
            return None;
        }
        Some(FunctionTranslator { builder, variables: VariableTable::new() })
    }

    /// Lowers one statement (see `lower_result` and `statement_terms`). An
    /// assignment declares its target when it is new, holding 0, and stores
    /// the value; any other statement is lowered for its value, which is
    /// dropped. On an error no variable is declared or changed.
    pub fn lower_statement(&mut self, expr: &Expr) -> (r: Result<(), LowerError>)
        requires
            old(self).wf(),
        ensures
            final(self).wf(),
            keeps_values(old(self).builder, final(self).builder),
            match lower_result(*expr, old(self).variables@) {
                Ok(ns) => r is Ok && final(self).variables@ == ns && final(self).terms()
                    == statement_terms(*expr, old(self).variables@, old(self).terms()),
                Err(x) => r is Err && r->Err_0 == x && final(self).variables@ == old(
                    self,
                ).variables@ && final(self).terms() == old(self).terms(),
            },
    {
        let ghost names0 = self.variables@;
        let ghost terms0 = self.terms();
        let nested = match expr {
            Expr::Operation(o) => contains_assignment(&o.expr1) || contains_assignment(&o.expr2),
            _ => false,
        };
        if nested {
            return Err(LowerError::NestedAssignmentOperator);
        }
        match expr {
            Expr::Operation(o) => {
                if !matches!(o.operator.op_type, OperatorType::OpType2(_)) {
                    return match cranelift_recursive_treverse_tree(expr, self) {
                        Ok(_) => Ok(()),
                        Err(x) => Err(x),
                    };
                }
                let name = match &*o.expr1 {
                    Expr::IdentifierToken(i) => &i.text,
                    _ => {
                        return Err(LowerError::InvalidAssignmentTarget);
                    },
                };
                let v = match cranelift_recursive_treverse_tree(&o.expr2, self) {
                    Ok(v) => v,
                    Err(x) => {
                        return Err(x);
                    },
                };
                let ghost rhs = expr_term(*o.expr2, names0, terms0);
                let slot = match self.variables.find(name) {
                    Some(k) => {
                        proof {
                            lemma_index_of_unique(names0, k as int);
                        }
                        k as u32
                    },
                    None => {
                        let k = self.variables.len();
                        if k >= 4294967294usize {
                            return Err(LowerError::TooManyVariables);
                        }
                        let ghost b0 = self.builder;
                        declare_slot(&mut self.builder, k as u32);
                        let zero = constant(&mut self.builder, 0);
                        write_slot(&mut self.builder, k as u32, zero);
                        self.variables.insert(name.clone());
                        proof {
                            assert forall|i: nat| #[trigger]
                                declared_slots(self.builder).contains(i) <==> i
                                < self.variables@.len() by {}
                            assert forall|i: nat| i < self.variables@.len() implies (
                            #[trigger] slot_term(self.builder, i)) is Some by {
                                if i < k {
                                    assert(slot_term(self.builder, i) == slot_term(b0, i));
                                }
                            }
                            assert(self.terms() =~= terms0.push(Term::Const(0))) by {
                                assert forall|i: int| 0 <= i < k implies #[trigger] self.terms()[i]
                                    == terms0[i] by {
                                    assert(slot_term(self.builder, i as nat) == slot_term(
                                        b0,
                                        i as nat,
                                    ));
                                }
                            }
                            assert(self.variables@[k as int] == name@);
                        }
                        k as u32
                    },
                };
                let ghost base = self.terms();
                let ghost b1 = self.builder;
                assert(self.variables@[slot as int] == name@);
                match o.operator.op_type {
                    OperatorType::OpType2(OpType2::AddEq) => {
                        let current = read_slot(&mut self.builder, slot);
                        let sum = add_values(&mut self.builder, current, v);
                        write_slot(&mut self.builder, slot, sum);
                    },
                    OperatorType::OpType2(OpType2::SubEq) => {
                        let current = read_slot(&mut self.builder, slot);
                        let difference = sub_values(&mut self.builder, current, v);
                        write_slot(&mut self.builder, slot, difference);
                    },
                    _ => {
                        write_slot(&mut self.builder, slot, v);
                    },
                }
                proof {
                    assert forall|i: nat| i < self.variables@.len() implies (
                    #[trigger] slot_term(self.builder, i)) is Some by {
                        if i != slot {
                            assert(slot_term(self.builder, i) == slot_term(b1, i));
                        }
                    }
                    assert forall|i: int| 0 <= i < self.variables@.len() && i != slot implies #[trigger] self.terms()[i]
                        == base[i] by {
                        assert(slot_term(self.builder, i as nat) == slot_term(b1, i as nat));
                    }
                    assert(self.terms() =~= statement_terms(*expr, names0, terms0));
                }
                Ok(())
            },
            _ => match cranelift_recursive_treverse_tree(expr, self) {
                Ok(_) => Ok(()),
                Err(x) => Err(x),
            },
        }
    }

    /// Ends the body: returns the value of `return_var`, or zero when it has
    /// no slot, and hands the builder back.
    pub fn finish(self) -> (r: FunctionBuilder<'a>)
        requires
            self.wf(),
        ensures
            positioned(r),
            block_filled(r),
            declared_slots(r) == declared_slots(self.builder),
            returned_term(r) == Some(result_term(self.variables@, self.terms())),
    {
        let mut builder = self.builder;
        let name = String::from_str("return_var");
        let v = match self.variables.find(&name) {
            Some(k) => {
                proof {
                    lemma_index_of_unique(self.variables@, k as int);
                }
                read_slot(&mut builder, k as u32)
            },
            None => constant(&mut builder, 0),
        };
        emit_return(&mut builder, v);
        builder
    }
}

/// Lowers `expr` for its value (see `value_result`): a literal becomes a
/// constant, an identifier a read of its slot, an operation the primitive of
/// its operator applied to its lowered operands. The value computes
/// `expr_term` of the expression over the variables' terms.
pub fn cranelift_recursive_treverse_tree<'a>(expr: &Expr, trans: &mut FunctionTranslator<'a>) -> (r:
    Result<Value, LowerError>)
    requires
        old(trans).wf(),
    ensures
        final(trans).wf(),
        final(trans).variables == old(trans).variables,
        final(trans).terms() == old(trans).terms(),
        keeps_values(old(trans).builder, final(trans).builder),
        keeps_slots_except(old(trans).builder, final(trans).builder, -1),
        match value_result(*expr, old(trans).variables@) {
            Ok(()) => r is Ok && term_of(final(trans).builder, r->Ok_0) == Some(
                expr_term(*expr, old(trans).variables@, old(trans).terms()),
            ),
            Err(x) => r is Err && r->Err_0 == x,
        },
    decreases expr,
{
    let ghost b0 = trans.builder;
    let r = match expr {
        Expr::NumberToken(n) => Ok(constant(&mut trans.builder, n.num)),
        Expr::IdentifierToken(i) => match trans.variables.find(&i.text) {
            Some(k) => {
                proof {
                    lemma_index_of_unique(trans.variables@, k as int);
                }
                Ok(read_slot(&mut trans.builder, k as u32))
            },
            None => Err(LowerError::UseOfUndeclaredVariable(i.text.clone())),
        },
        Expr::Operation(o) => {
            let v1 = match cranelift_recursive_treverse_tree(&o.expr1, trans) {
                Ok(v) => v,
                Err(x) => {
                    return Err(x);
                },
            };
            let v2 = match cranelift_recursive_treverse_tree(&o.expr2, trans) {
                Ok(v) => v,
                Err(x) => {
                    return Err(x);
                },
            };
            match o.operator.op_type {
                OperatorType::OpType0(OpType0::Mul) => Ok(mul_values(&mut trans.builder, v1, v2)),
                OperatorType::OpType1(OpType1::Add) => Ok(add_values(&mut trans.builder, v1, v2)),
                OperatorType::OpType1(OpType1::Sub) => Ok(sub_values(&mut trans.builder, v1, v2)),
                _ => Err(LowerError::UnsupportedOperator(o.operator.text.clone())),
            }
        },
    };
    proof {
        assert forall|i: nat| i < trans.variables@.len() implies (#[trigger] slot_term(
            trans.builder,
            i,
        )) is Some by {
            assert(slot_term(trans.builder, i) == slot_term(b0, i));
        }
        assert(trans.terms() =~= old(trans).terms()) by {
            assert forall|i: int| 0 <= i < trans.variables@.len() implies #[trigger] trans.terms()[i]
                == old(trans).terms()[i] by {
                assert(slot_term(trans.builder, i as nat) == slot_term(b0, i as nat));
            }
        }
    }
    r
}

/// Lowers the statements of `expr_tree` in order, each seeing the variables
/// that the ones before it declared; stops at the first error.
pub fn cranelift_treverse_tree<'a>(expr_tree: &Vec<Expr>, trans: &mut FunctionTranslator<'a>) -> (r:
    Result<(), LowerError>)
    requires
        old(trans).wf(),
    ensures
        final(trans).wf(),
        match lower_all(expr_tree@, old(trans).variables@) {
            Ok(ns) => r is Ok && final(trans).variables@ == ns && final(trans).terms()
                == program_terms(expr_tree@, old(trans).variables@, old(trans).terms()),
            Err(x) => r is Err && r->Err_0 == x,
        },
{
    let ghost names0 = trans.variables@;
    let ghost terms0 = trans.terms();
    let mut k: usize = 0;
    while k < expr_tree.len()
        invariant
            trans.wf(),
            names0 == old(trans).variables@,
            terms0 == old(trans).terms(),
            k <= expr_tree@.len(),
            lower_all(expr_tree@.take(k as int), names0) == Ok::<Seq<Seq<char>>, LowerError>(
                trans.variables@,
            ),
            program_terms(expr_tree@.take(k as int), names0, terms0) == trans.terms(),
        decreases expr_tree@.len() - k,
    {
        assert(expr_tree@.take(k + 1).drop_last() =~= expr_tree@.take(k as int));
        assert(expr_tree@.take(k + 1).last() == expr_tree@[k as int]);
        match trans.lower_statement(&expr_tree[k]) {
            Ok(()) => {},
            Err(x) => {
                proof {
                    assert(lower_all(expr_tree@.take(k + 1), names0) == Err::<
                        Seq<Seq<char>>,
                        LowerError,
                    >(x));
                    lemma_lower_all_error(expr_tree@, names0, k + 1);
                }
                return Err(x);
            },
        }
        k = k + 1;
    }
    assert(expr_tree@.take(k as int) =~= expr_tree@);
    Ok(())
}

proof fn lemma_lower_all_error(es: Seq<Expr>, names: Seq<Seq<char>>, k: int)
    requires
        0 <= k <= es.len(),
        lower_all(es.take(k), names) is Err,
    ensures
        lower_all(es, names) == lower_all(es.take(k), names),
    decreases es.len() - k,
{
    if k < es.len() {
        assert(es.take(k + 1).drop_last() =~= es.take(k));
        lemma_lower_all_error(es, names, k + 1);
    } else {
        assert(es.take(k) =~= es);
    }
}

/// Whether `e` reads an identifier that is not among `names`.
pub open spec fn reads_undeclared(e: Expr, names: Seq<Seq<char>>) -> bool
    decreases e,
{
    match e {
        Expr::NumberToken(_) => false,
        Expr::IdentifierToken(i) => !names.contains(i.text@),
        Expr::Operation(o) => reads_undeclared(*o.expr1, names) || reads_undeclared(*o.expr2, names),
    }
}

/// Whether every operator of `e` has an IR primitive.
pub open spec fn all_primitive(e: Expr) -> bool
    decreases e,
{
    match e {
        Expr::Operation(o) => has_primitive(o.operator) && all_primitive(*o.expr1) && all_primitive(
            *o.expr2,
        ),
        _ => true,
    }
}

/// The part of a statement that is lowered for its value: the right side of
/// an assignment to an identifier, or the whole statement.
pub open spec fn value_part(e: Expr) -> Expr {
    match e {
        Expr::Operation(o) => if is_assignment(o.operator) && (*o.expr1 is IdentifierToken) {
            *o.expr2
        } else {
            e
        },
        _ => e,
    }
}

proof fn lemma_primitive_has_no_assignment(e: Expr)
    requires
        all_primitive(e),
    ensures
        !has_assignment(e),
    decreases e,
{
    if let Expr::Operation(o) = e {
        lemma_primitive_has_no_assignment(*o.expr1);
        lemma_primitive_has_no_assignment(*o.expr2);
    }
}

proof fn lemma_value_reads_undeclared(e: Expr, names: Seq<Seq<char>>)
    requires
        all_primitive(e),
        reads_undeclared(e, names),
    ensures
        value_result(e, names) is Err,
        value_result(e, names)->Err_0 is UseOfUndeclaredVariable,
        !names.contains(value_result(e, names)->Err_0->UseOfUndeclaredVariable_0@),
    decreases e,
{
    if let Expr::Operation(o) = e {
        if reads_undeclared(*o.expr1, names) {
            lemma_value_reads_undeclared(*o.expr1, names);
        } else {
            lemma_value_reads_undeclared(*o.expr2, names);
            if value_result(*o.expr1, names) is Err {
                lemma_value_no_undeclared(*o.expr1, names);
            }
        }
    }
}

proof fn lemma_value_no_undeclared(e: Expr, names: Seq<Seq<char>>)
    requires
        all_primitive(e),
        !reads_undeclared(e, names),
    ensures
        value_result(e, names) is Ok,
    decreases e,
{
    if let Expr::Operation(o) = e {
        lemma_value_no_undeclared(*o.expr1, names);
        lemma_value_no_undeclared(*o.expr2, names);
    }
}

/// A statement that is not an assignment leaves every variable's term as it
/// was: a bare expression has no effect on the function's result.
pub proof fn lemma_expression_statement_keeps_terms(
    e: Expr,
    names: Seq<Seq<char>>,
    terms: Seq<Term>,
)
    requires
        !(e is Operation && is_assignment(e->Operation_0.operator)),
    ensures
        statement_terms(e, names, terms) == terms,
{
}

/// A statement with an assignment below its root fails to lower with
/// `NestedAssignmentOperator`, whatever variables are declared.
pub proof fn lemma_nested_assignment_rejected(e: Expr, names: Seq<Seq<char>>)
    requires
        has_nested_assignment(e),
    ensures
        lower_result(e, names) == Err::<Seq<Seq<char>>, LowerError>(
            LowerError::NestedAssignmentOperator,
        ),
{
}

/// A statement whose value reads an identifier that has no slot yet fails to
/// lower with `UseOfUndeclaredVariable`, naming an identifier without a slot,
/// when every operator it evaluates has an IR primitive.
pub proof fn lemma_use_before_assignment(e: Expr, names: Seq<Seq<char>>)
    requires
        all_primitive(value_part(e)),
        reads_undeclared(value_part(e), names),
    ensures
        lower_result(e, names) is Err,
        lower_result(e, names)->Err_0 is UseOfUndeclaredVariable,
        !names.contains(lower_result(e, names)->Err_0->UseOfUndeclaredVariable_0@),
{
    lemma_value_reads_undeclared(value_part(e), names);
    lemma_primitive_has_no_assignment(value_part(e));
}

} // verus!
