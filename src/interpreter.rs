//! The evaluator: walks statements over a register of variables.
use crate::assign::{assign_value, assignment, entries_view, entry_value, Assigned};
use crate::error::{FunctionErrorKind, InterpretError};
use crate::operator::{operate, operator_result};
use crate::parser::copy_token;
use crate::register::{find_named, rebinds, ContextType, Register};
use crate::statement::{AssignOrder, DeclareScope, Statement};
use crate::token::{Category, IdentifierType, Token};
use crate::value::{equal_values, int_of, text_of, truth_of, NaslValue};
use vstd::prelude::*;
use vstd::string::StringSliceAdditionalSpecFns;

verus! {

/// How many loop iterations and repetitions one interpreter may run.
pub const STEP_BUDGET: u64 = 100000000;

/// How deeply user functions may call each other.
pub const CALL_DEPTH: u64 = 200;

/// A copy of `s`.
fn duplicate(s: &Statement) -> (r: Statement)
    decreases s,
{
    match s {
        Statement::Primitive(t) => Statement::Primitive(copy_token(t)),
        Statement::Variable(t) => Statement::Variable(copy_token(t)),
        Statement::Array(t, None) => Statement::Array(copy_token(t), None),
        Statement::Array(t, Some(i)) => Statement::Array(copy_token(t), Some(Box::new(duplicate(i)))),
        Statement::Parameter(v) => Statement::Parameter(duplicate_all(s, v)),
        Statement::Assign(c, o, l, r) => Statement::Assign(
            crate::parser::copy_category(c),
            *o,
            Box::new(duplicate(l)),
            Box::new(duplicate(r)),
        ),
        Statement::Operator(c, v) => Statement::Operator(
            crate::parser::copy_category(c),
            duplicate_all(s, v),
        ),
        Statement::Call(t, a) => Statement::Call(copy_token(t), Box::new(duplicate(a))),
        Statement::NamedParameter(t, a) => Statement::NamedParameter(
            copy_token(t),
            Box::new(duplicate(a)),
        ),
        Statement::If(c, t, None) => Statement::If(
            Box::new(duplicate(c)),
            Box::new(duplicate(t)),
            None,
        ),
        Statement::If(c, t, Some(e)) => Statement::If(
            Box::new(duplicate(c)),
            Box::new(duplicate(t)),
            Some(Box::new(duplicate(e))),
        ),
        Statement::For(a, b, c, d) => Statement::For(
            Box::new(duplicate(a)),
            Box::new(duplicate(b)),
            Box::new(duplicate(c)),
            Box::new(duplicate(d)),
        ),
        Statement::While(a, b) => Statement::While(Box::new(duplicate(a)), Box::new(duplicate(b))),
        Statement::Repeat(a, b) => Statement::Repeat(Box::new(duplicate(a)), Box::new(duplicate(b))),
        Statement::ForEach(t, a, b) => Statement::ForEach(
            copy_token(t),
            Box::new(duplicate(a)),
            Box::new(duplicate(b)),
        ),
        Statement::Block(v) => Statement::Block(duplicate_all(s, v)),
        Statement::FunctionDeclaration(t, ps, b) => {
            let mut params: Vec<Token> = Vec::new();
            let mut i: usize = 0;
            while i < ps.len()
                invariant
                    i <= ps@.len(),
                decreases ps@.len() - i,
            {
                params.push(copy_token(&ps[i]));
                i = i + 1;
            }
            Statement::FunctionDeclaration(copy_token(t), params, Box::new(duplicate(b)))
        },
        Statement::Return(a) => Statement::Return(Box::new(duplicate(a))),
        Statement::Include(a) => Statement::Include(Box::new(duplicate(a))),
        Statement::Exit(a) => Statement::Exit(Box::new(duplicate(a))),
        Statement::Declare(scope, ns) => {
            let mut names: Vec<Token> = Vec::new();
            let mut i: usize = 0;
            while i < ns.len()
                invariant
                    i <= ns@.len(),
                decreases ns@.len() - i,
            {
                names.push(copy_token(&ns[i]));
                i = i + 1;
            }
            Statement::Declare(*scope, names)
        },
        Statement::AttackCategory(a) => Statement::AttackCategory(*a),
        Statement::NoOp(None) => Statement::NoOp(None),
        Statement::NoOp(Some(t)) => Statement::NoOp(Some(copy_token(t))),
        Statement::EoF => Statement::EoF,
    }
}

/// Copies of the statements `v`, the children of `parent`.
fn duplicate_all(parent: &Statement, v: &Vec<Statement>) -> (r: Vec<Statement>)
    requires
        (parent is Parameter && parent->Parameter_0 == *v) || (parent is Operator
            && parent->Operator_1 == *v) || (parent is Block && parent->Block_0 == *v),
    decreases parent, 0nat,
{
    let mut out: Vec<Statement> = Vec::new();
    let mut i: usize = 0;
    while i < v.len()
        invariant
            i <= v@.len(),
            (parent is Parameter && parent->Parameter_0 == *v) || (parent is Operator
                && parent->Operator_1 == *v) || (parent is Block && parent->Block_0 == *v),
        decreases v@.len() - i,
    {
        proof {
            if parent is Parameter {
                assert(decreases_to!(*parent => parent->Parameter_0));
            } else if parent is Operator {
                assert(decreases_to!(*parent => parent->Operator_1));
            } else {
                assert(decreases_to!(*parent => parent->Block_0));
            }
            assert(decreases_to!(*v => v@));
            assert(decreases_to!(v@ => v@[i as int]));
        }
        out.push(duplicate(&v[i]));
        i = i + 1;
    }
    out
}

/// The name a token stands for.
fn identifier(token: &Token) -> (r: Result<&String, InterpretError>)
    ensures
        r is Ok <==> (token.category is Identifier && token.category->Identifier_0 is Undefined),
        r is Ok ==> *r->Ok_0 == token.category->Identifier_0->Undefined_0,
        r is Err ==> r->Err_0 == InterpretError::Unsupported,
{
    match &token.category {
        Category::Identifier(IdentifierType::Undefined(name)) => Ok(name),
        _ => Err(InterpretError::Unsupported),
    }
}

/// Whether a value ends the enclosing block or loop.
pub open spec fn is_control(v: NaslValue) -> bool {
    v is Exit || v is Return || v is Break
}

fn control(v: &NaslValue) -> (r: bool)
    ensures
        r == is_control(*v),
{
    match v {
        NaslValue::Exit(_) | NaslValue::Return(_) | NaslValue::Break => true,
        _ => false,
    }
}

/// The elements that `foreach` visits: an array's elements, a dictionary's
/// values, nothing for `Null`, any other value alone.
fn into_sequence(v: NaslValue) -> (r: Vec<NaslValue>)
    ensures
        v is Array ==> r@ == v->Array_0@,
        v is Null ==> r@.len() == 0,
        !(v is Array || v is Dict || v is Null) ==> r@ == seq![v],
        v is Dict ==> r@ == v->Dict_0@.map_values(|e: (String, NaslValue)| e.1),
        r@ == sequence_of(v),
{
    match v {
        NaslValue::Array(x) => x,
        NaslValue::Dict(d) => {
            let ghost all = d@;
            let mut d = d;
            let mut out: Vec<NaslValue> = Vec::new();
            let ghost n = d@.len();
            while d.len() > 0
                invariant
                    out@.len() + d@.len() == n,
                    n == all.len(),
                    d@ == all.subrange(out@.len() as int, n as int),
                    out@ == all.subrange(0, out@.len() as int).map_values(
                        |e: (String, NaslValue)| e.1,
                    ),
                decreases d@.len(),
            {
                let ghost k = out@.len();
                let (_, value) = d.remove(0);
                out.push(value);
                proof {
                    assert(d@ =~= all.subrange(out@.len() as int, n as int));
                    assert(out@ =~= all.subrange(0, out@.len() as int).map_values(
                        |e: (String, NaslValue)| e.1,
                    ));
                }
            }
            proof {
                assert(all.subrange(0, n as int) =~= all);
            }
            out
        },
        NaslValue::Null => Vec::new(),
        other => {
            let mut out: Vec<NaslValue> = Vec::new();
            out.push(other);
            out
        },
    }
}

/// What a literal token evaluates to.
pub open spec fn primitive_result(t: Token, r: Result<NaslValue, InterpretError>) -> bool {
    match t.category {
        Category::Number(n) => r == Ok::<NaslValue, InterpretError>(NaslValue::Number(n)),
        Category::String(s) => r is Ok && r->Ok_0 is String && r->Ok_0->String_0@ == s@,
        Category::Identifier(IdentifierType::Undefined(s)) => r is Ok && r->Ok_0 is String
            && r->Ok_0->String_0@ == s@,
        Category::Identifier(IdentifierType::True) => r == Ok::<NaslValue, InterpretError>(
            NaslValue::Boolean(true),
        ),
        Category::Identifier(IdentifierType::False) => r == Ok::<NaslValue, InterpretError>(
            NaslValue::Boolean(false),
        ),
        Category::Identifier(IdentifierType::Null) => r == Ok::<NaslValue, InterpretError>(
            NaslValue::Null,
        ),
        Category::Identifier(IdentifierType::FCTAnonArgs) => r == Ok::<NaslValue, InterpretError>(
            NaslValue::Null,
        ),
        _ => r == Err::<NaslValue, InterpretError>(InterpretError::Unsupported),
    }
}

/// What reading variable `name` from `reg` gives: its innermost value, `Null`
/// when it is unbound, an error when it names a function.
pub open spec fn variable_result(reg: Register, name: Seq<char>, r: Result<NaslValue, InterpretError>) -> bool {
    match find_named(reg.frames(), name, reg.frames().len() as int) {
        None => r == Ok::<NaslValue, InterpretError>(NaslValue::Null),
        Some((f, j)) => match reg.frames()[f][j].1 {
            ContextType::Value(v) => r is Ok && equal_values(r->Ok_0, v),
            ContextType::Function(_, _) => r is Err && r->Err_0 is NotAssignable,
        },
    }
}

/// What evaluating `statement` in `reg` gives, for the statements that need no
/// further evaluation.
pub open spec fn direct_result(reg: Register, statement: Statement, r: Result<NaslValue, InterpretError>) -> bool {
    match statement {
        Statement::Primitive(t) => primitive_result(t, r),
        Statement::Variable(t) => match t.category {
            Category::Identifier(IdentifierType::Undefined(name)) => variable_result(reg, name@, r),
            _ => r == Err::<NaslValue, InterpretError>(InterpretError::Unsupported),
        },
        Statement::AttackCategory(c) => r == Ok::<NaslValue, InterpretError>(NaslValue::AttackCategory(c)),
        Statement::NoOp(_) => r == Ok::<NaslValue, InterpretError>(NaslValue::Null),
        Statement::EoF => r == Ok::<NaslValue, InterpretError>(NaslValue::Null),
        Statement::NamedParameter(_, _) => r == Err::<NaslValue, InterpretError>(
            InterpretError::Unsupported,
        ),
        _ => true,
    }
}

/// What an operator statement gives, when it gives a value: the result of its
/// operator on the values of its operands.
pub open spec fn operator_statement_result(statement: Statement, r: Result<NaslValue, InterpretError>) -> bool {
    match statement {
        Statement::Operator(op, operands) => (op != Category::X && r is Ok) ==> (if operands@.len()
            >= 2 {
            exists|a: NaslValue, b: NaslValue| operator_result(op, a, Some(b), r)
        } else {
            exists|a: NaslValue| operator_result(op, a, None, r)
        }),
        _ => true,
    }
}

/// What an assignment statement gives, when it gives a value: what its
/// operator gives back for some current value, index and right side.
pub open spec fn assign_statement_result(statement: Statement, r: Result<NaslValue, InterpretError>) -> bool {
    match statement {
        Statement::Assign(op, order, _, _) => r is Ok ==> exists|
            current: NaslValue,
            index: Option<NaslValue>,
            value: NaslValue,
            res: Result<Assigned, InterpretError>,
        |
            assignment(op, order, current, index, value, res) && res is Ok && r
                == Ok::<NaslValue, InterpretError>(res->Ok_0.returned),
        _ => true,
    }
}

/// The kind of value that a statement gives, when it gives one: a block gives
/// `Null` unless a control value ends it; a loop consumes `Break`;
/// declarations give `Null`; `exit` and `return` give their
/// control values; a list gives an array of its length.
pub open spec fn shape_result(statement: Statement, r: Result<NaslValue, InterpretError>) -> bool {
    r is Ok ==> match statement {
        Statement::Block(_) => r->Ok_0 == NaslValue::Null || is_control(r->Ok_0),
        Statement::For(_, _, _, _) | Statement::While(_, _) | Statement::Repeat(_, _)
        | Statement::ForEach(_, _, _) => r->Ok_0 == NaslValue::Null || r->Ok_0 is Exit
            || r->Ok_0 is Return,
        Statement::FunctionDeclaration(_, _, _) | Statement::Declare(_, _) => r->Ok_0
            == NaslValue::Null,
        Statement::Exit(_) => r->Ok_0 is Exit,
        Statement::Return(_) => r->Ok_0 is Return,
        Statement::Parameter(items) => r->Ok_0 is Array && r->Ok_0->Array_0@.len()
            == items@.len(),
        _ => true,
    }
}

/// Built-in functions that a script may call. A call whose name no user
/// function carries goes to `nasl_fn_execute`, with a frame that binds the
/// named arguments by name and the positional ones, as an array, under
/// `_FCT_ANON_ARGS`.
pub trait FunctionExecuter {
    /// Whether a function of this name is known.
    fn nasl_fn_defined(&self, name: &str) -> bool;

    /// Runs the named function; `None` when it is not known.
    fn nasl_fn_execute(&self, name: &str, register: &Register) -> Option<
        Result<NaslValue, FunctionErrorKind>,
    >;
}

/// No built-in functions.
pub struct NoBuiltins;

impl FunctionExecuter for NoBuiltins {
    fn nasl_fn_defined(&self, _name: &str) -> bool {
        false
    }

    fn nasl_fn_execute(&self, _name: &str, _register: &Register) -> Option<
        Result<NaslValue, FunctionErrorKind>,
    > {
        None
    }
}

/// What reading element `idx` of `current` gives: an array's element, `Null`
/// past its end; a dictionary's value under the key, `Null` for a missing key;
/// an error for any other value.
pub open spec fn element_result(current: NaslValue, idx: NaslValue, r: Result<NaslValue, InterpretError>) -> bool {
    match current {
        NaslValue::Array(x) => r == Ok::<NaslValue, InterpretError>(
            if 0 <= int_of(idx) < x@.len() {
                x@[int_of(idx) as int]
            } else {
                NaslValue::Null
            },
        ),
        NaslValue::Dict(d) => r == Ok::<NaslValue, InterpretError>(
            entry_value(entries_view(d@), text_of(idx)),
        ),
        _ => r is Err,
    }
}

/// What reading element `idx` of variable `name` in `reg` gives: the element of
/// a value equal to the bound one; an unbound name holds `Null`, which has no
/// elements; a function name is an error.
pub open spec fn indexed_result(reg: Register, name: Seq<char>, idx: NaslValue, r: Result<NaslValue, InterpretError>) -> bool {
    match find_named(reg.frames(), name, reg.frames().len() as int) {
        None => r is Err && r->Err_0 is NotIndexable,
        Some((f, j)) => match reg.frames()[f][j].1 {
            ContextType::Value(v) => exists|c: NaslValue|
                #![trigger element_result(c, idx, r)]
                equal_values(c, v) && element_result(c, idx, r),
            ContextType::Function(_, _) => r is Err && r->Err_0 is NotAssignable,
        },
    }
}

/// An error outcome passes on unchanged.
pub open spec fn propagates(ra: Result<NaslValue, InterpretError>, r: Result<NaslValue, InterpretError>) -> bool {
    ra is Err ==> r == ra
}

/// What a binary operator gives once its left operand gave `a` and its right
/// operand gave `rb`.
pub open spec fn second_operand(op: Category, a: NaslValue, rb: Result<NaslValue, InterpretError>, r: Result<NaslValue, InterpretError>) -> bool {
    match rb {
        Ok(b) => operator_result(op, a, Some(b), r),
        Err(_) => r == rb,
    }
}

/// Whether `s` is an expression without side effects: literals, variable and
/// element reads, operators, and `if`s made of such parts.
pub open spec fn pure_expr(s: Statement) -> bool
    decreases s,
{
    match s {
        Statement::Primitive(_) => true,
        Statement::Variable(_) => true,
        Statement::Array(_, Some(i)) => pure_expr(*i),
        Statement::Operator(op, v) => if v@.len() == 1 {
            op != Category::X && pure_expr(v@[0])
        } else if v@.len() == 2 {
            pure_expr(v@[0]) && pure_expr(v@[1])
        } else {
            false
        },
        Statement::If(c, t, e) => pure_expr(*c) && pure_expr(*t) && match e {
            Some(x) => pure_expr(*x),
            None => true,
        },
        _ => false,
    }
}

/// What a side-effect-free expression `s` evaluates to in register `reg`. The
/// repeat operator `l x n` gives `Null` when `n` is 0 and otherwise what the
/// last of its evaluations of `l` gives (or runs out of steps).
pub open spec fn evaluates(reg: Register, s: Statement, r: Result<NaslValue, InterpretError>) -> bool
    decreases s,
{
    match s {
        Statement::Primitive(t) => primitive_result(t, r),
        Statement::Variable(t) => match t.category {
            Category::Identifier(IdentifierType::Undefined(name)) => variable_result(reg, name@, r),
            _ => r == Err::<NaslValue, InterpretError>(InterpretError::Unsupported),
        },
        Statement::Array(t, Some(i)) => match t.category {
            Category::Identifier(IdentifierType::Undefined(name)) => exists|ri: Result<NaslValue, InterpretError>|
                #![trigger propagates(ri, r)]
                evaluates(reg, *i, ri) && propagates(ri, r) && (ri is Ok ==> indexed_result(
                    reg,
                    name@,
                    ri->Ok_0,
                    r,
                )),
            _ => r == Err::<NaslValue, InterpretError>(InterpretError::Unsupported),
        },
        Statement::Operator(op, v) => if v@.len() == 1 {
            exists|ra: Result<NaslValue, InterpretError>|
                #![trigger propagates(ra, r)]
                evaluates(reg, v@[0], ra) && propagates(ra, r) && (ra is Ok ==> operator_result(
                    op,
                    ra->Ok_0,
                    None,
                    r,
                ))
        } else if v@.len() == 2 && op == Category::X {
            exists|rn: Result<NaslValue, InterpretError>|
                #![trigger propagates(rn, r)]
                evaluates(reg, v@[1], rn) && propagates(rn, r) && (rn is Ok ==> if int_of(rn->Ok_0)
                    == 0 {
                    r == Ok::<NaslValue, InterpretError>(NaslValue::Null)
                } else {
                    evaluates(reg, v@[0], r) || r == Err::<NaslValue, InterpretError>(
                        InterpretError::StepLimit,
                    )
                })
        } else if v@.len() == 2 {
            exists|ra: Result<NaslValue, InterpretError>, rb: Result<NaslValue, InterpretError>|
                #![trigger propagates(ra, r), second_operand(op, ra->Ok_0, rb, r)]
                evaluates(reg, v@[0], ra) && propagates(ra, r) && (ra is Ok ==> evaluates(
                    reg,
                    v@[1],
                    rb,
                ) && second_operand(op, ra->Ok_0, rb, r))
        } else {
            false
        },
        Statement::If(c, t, e) => exists|rc: Result<NaslValue, InterpretError>|
            #![trigger propagates(rc, r)]
            evaluates(reg, *c, rc) && propagates(rc, r) && (rc is Ok ==> if truth_of(rc->Ok_0) {
                evaluates(reg, *t, r)
            } else {
                match e {
                    Some(x) => evaluates(reg, *x, r),
                    None => r == Ok::<NaslValue, InterpretError>(NaslValue::Null),
                }
            }),
        _ => false,
    }
}

/// Whether `cur` is what variable `name` holds in `reg`: a value equal to the
/// bound one, or `Null` when the name is unbound.
pub open spec fn current_of(reg: Register, name: Seq<char>, cur: NaslValue) -> bool {
    match find_named(reg.frames(), name, reg.frames().len() as int) {
        None => cur == NaslValue::Null,
        Some((f, j)) => match reg.frames()[f][j].1 {
            ContextType::Value(v) => equal_values(cur, v),
            ContextType::Function(_, _) => false,
        },
    }
}

/// Whether `name` is bound to a function in `reg`.
pub open spec fn names_function(reg: Register, name: Seq<char>) -> bool {
    match find_named(reg.frames(), name, reg.frames().len() as int) {
        None => false,
        Some((f, j)) => reg.frames()[f][j].1 is Function,
    }
}

/// The frame that an assignment to `name` writes: the innermost one that binds
/// it, or the root frame.
pub open spec fn target_frame(reg: Register, name: Seq<char>) -> int {
    match find_named(reg.frames(), name, reg.frames().len() as int) {
        None => 0,
        Some((f, _)) => f,
    }
}

/// `reg2` is `reg` with `name` bound to `slot` in frame `f`.
pub open spec fn rebound(reg: Register, reg2: Register, f: int, name: Seq<char>, slot: ContextType) -> bool {
    &&& reg2.frames().len() == reg.frames().len()
    &&& forall|g: int|
        0 <= g < reg.frames().len() && g != f ==> #[trigger] reg2.frames()[g] == reg.frames()[g]
    &&& rebinds(reg.frames()[f], reg2.frames()[f], name, slot)
}

/// What assigning with `op` and `order` to variable `name`, at `index`, the
/// right side `rv` does: `reg2` is the register after, `r` the result.
pub open spec fn stores(
    reg: Register,
    reg2: Register,
    name: Seq<char>,
    index: Option<NaslValue>,
    op: Category,
    order: AssignOrder,
    rv: NaslValue,
    r: Result<NaslValue, InterpretError>,
) -> bool {
    if names_function(reg, name) {
        r is Err && r->Err_0 is NotAssignable && reg2 == reg
    } else {
        exists|cur: NaslValue, res: Result<Assigned, InterpretError>|
            #![trigger assignment(op, order, cur, index, rv, res)]
            current_of(reg, name, cur) && assignment(op, order, cur, index, rv, res) && match res {
                Err(e) => r == Err::<NaslValue, InterpretError>(e) && reg2 == reg,
                Ok(a) => r == Ok::<NaslValue, InterpretError>(a.returned) && rebound(
                    reg,
                    reg2,
                    target_frame(reg, name),
                    name,
                    ContextType::Value(a.stored),
                ),
            }
    }
}

/// What an assignment with side-effect-free index and right side does to
/// name `name`: first the index, then the right side, then the store.
pub open spec fn assign_effect(
    reg: Register,
    reg2: Register,
    name: Seq<char>,
    index: Option<Box<Statement>>,
    op: Category,
    order: AssignOrder,
    right: Statement,
    r: Result<NaslValue, InterpretError>,
) -> bool {
    match index {
        None => exists|rv: Result<NaslValue, InterpretError>|
            #![trigger propagates(rv, r)]
            evaluates(reg, right, rv) && propagates(rv, r) && (rv is Err ==> reg2 == reg) && (rv is Ok
                ==> stores(reg, reg2, name, None, op, order, rv->Ok_0, r)),
        Some(i) => exists|ri: Result<NaslValue, InterpretError>, rv: Result<NaslValue, InterpretError>|
            #![trigger propagates(ri, r), propagates(rv, r)]
            evaluates(reg, *i, ri) && propagates(ri, r) && (ri is Err ==> reg2 == reg) && (ri is Ok
                ==> evaluates(reg, right, rv) && propagates(rv, r) && (rv is Err ==> reg2 == reg) && (
            rv is Ok ==> stores(reg, reg2, name, Some(ri->Ok_0), op, order, rv->Ok_0, r))),
    }
}

/// What an assignment statement does, when its index and right side have no
/// side effects and its target is a name.
pub open spec fn assign_outcome(reg: Register, reg2: Register, statement: Statement, r: Result<NaslValue, InterpretError>) -> bool {
    match statement {
        Statement::Assign(op, order, left, right) => pure_expr(*right) ==> match *left {
            Statement::Variable(t) => match t.category {
                Category::Identifier(IdentifierType::Undefined(name)) => assign_effect(
                    reg,
                    reg2,
                    name@,
                    None,
                    op,
                    order,
                    *right,
                    r,
                ),
                _ => true,
            },
            Statement::Array(t, i) => match t.category {
                Category::Identifier(IdentifierType::Undefined(name)) => (match i {
                    Some(x) => pure_expr(*x),
                    None => true,
                }) ==> assign_effect(reg, reg2, name@, i, op, order, *right, r),
                _ => true,
            },
            _ => true,
        },
        _ => true,
    }
}

/// What evaluating `st` in register `reg` gives and leaves behind in `reg2`,
/// as far as the statement's kind settles it.
pub open spec fn step_outcome(reg: Register, reg2: Register, st: Statement, r: Result<NaslValue, InterpretError>) -> bool {
    &&& direct_result(reg, st, r)
    &&& operator_statement_result(st, r)
    &&& assign_statement_result(st, r)
    &&& shape_result(st, r)
    &&& pure_expr(st) ==> evaluates(reg, st, r) && reg2 == reg
    &&& assign_outcome(reg, reg2, st, r)
    &&& big(reg, st, reg2, r)
}

/// Whether `rs` are the results of evaluating `statements` in order, starting
/// from an empty register: an entry that did not parse gives `Syntax` and
/// leaves the register as it is.
pub open spec fn run_outcome(
    statements: Seq<Result<Statement, crate::parser::SyntaxError>>,
    rs: Seq<Result<NaslValue, InterpretError>>,
) -> bool {
    exists|regs: Seq<Register>|
        #![trigger regs.len()]
        regs.len() == rs.len() + 1 && rs.len() == statements.len() && regs[0].frames() == seq![
            Seq::<(String, ContextType)>::empty(),
        ] && forall|i: int|
            #![trigger rs[i]]
            0 <= i < rs.len() ==> (statements[i] is Err ==> rs[i] == Err::<
                NaslValue,
                InterpretError,
            >(InterpretError::Syntax) && regs[i + 1] == regs[i]) && (statements[i] is Ok
                ==> step_outcome(regs[i], regs[i + 1], statements[i]->Ok_0, rs[i]))
}

/// An outcome `r_mid` reached in `reg_mid` ends the evaluation there when it is
/// an error.
pub open spec fn passes(
    reg_mid: Register,
    r_mid: Result<NaslValue, InterpretError>,
    reg2: Register,
    r: Result<NaslValue, InterpretError>,
) -> bool {
    r_mid is Err ==> r == r_mid && reg2 == reg_mid
}

/// A stage that gave a value, in register `reg_mid`.
pub open spec fn succeeded(reg_mid: Register, r_mid: Result<NaslValue, InterpretError>) -> bool {
    r_mid is Ok
}

/// The values that `foreach` visits in `v`.
pub open spec fn sequence_of(v: NaslValue) -> Seq<NaslValue> {
    match v {
        NaslValue::Array(x) => x@,
        NaslValue::Dict(d) => d@.map_values(|e: (String, NaslValue)| e.1),
        NaslValue::Null => Seq::empty(),
        _ => seq![v],
    }
}

/// `reg2` is `reg` with `name` bound to `slot` in its innermost frame.
pub open spec fn binds_local(reg: Register, reg2: Register, name: Seq<char>, slot: ContextType) -> bool {
    reg.frames().len() >= 1 && rebound(reg, reg2, reg.frames().len() - 1, name, slot)
}

/// How many times `l x n` evaluates `l` when `n` reads as `count` (not 0).
pub open spec fn repeat_count(count: i64) -> nat {
    if count > 1 {
        count as nat
    } else {
        1
    }
}

/// Evaluating statement `s` in register `reg` leaves register `reg2` and gives
/// `r`. Calls and inclusions are left open; every other statement is stated
/// exactly, loops through their rounds.
pub open spec fn big(reg: Register, s: Statement, reg2: Register, r: Result<NaslValue, InterpretError>) -> bool
    decreases s, 2nat, 0nat,
{
    match s {
        Statement::Primitive(t) => primitive_result(t, r) && reg2 == reg,
        Statement::Variable(t) | Statement::Array(t, None) => reg2 == reg && match t.category {
            Category::Identifier(IdentifierType::Undefined(name)) => variable_result(reg, name@, r),
            _ => r == Err::<NaslValue, InterpretError>(InterpretError::Unsupported),
        },
        Statement::Array(t, Some(i)) => match t.category {
            Category::Identifier(IdentifierType::Undefined(name)) => exists|
                regi: Register,
                ri: Result<NaslValue, InterpretError>,
            |
                #![trigger passes(regi, ri, reg2, r)]
                big(reg, *i, regi, ri) && passes(regi, ri, reg2, r) && (ri is Ok ==> reg2 == regi
                    && indexed_result(regi, name@, ri->Ok_0, r)),
            _ => r == Err::<NaslValue, InterpretError>(InterpretError::Unsupported) && reg2 == reg,
        },
        Statement::Operator(op, v) => if v@.len() == 0 || (op == Category::X && v@.len() < 2) {
            r == Err::<NaslValue, InterpretError>(InterpretError::Unsupported) && reg2 == reg
        } else if op == Category::X {
            exists|regn: Register, rn: Result<NaslValue, InterpretError>|
                #![trigger passes(regn, rn, reg2, r)]
                big(reg, v@[1], regn, rn) && passes(regn, rn, reg2, r) && (rn is Ok ==> if int_of(
                    rn->Ok_0,
                ) == 0 {
                    r == Ok::<NaslValue, InterpretError>(NaslValue::Null) && reg2 == regn
                } else {
                    repeats(s, regn, repeat_count(int_of(rn->Ok_0)), reg2, r)
                })
        } else if v@.len() == 1 {
            exists|rega: Register, ra: Result<NaslValue, InterpretError>|
                #![trigger passes(rega, ra, reg2, r)]
                big(reg, v@[0], rega, ra) && passes(rega, ra, reg2, r) && (ra is Ok ==> reg2 == rega
                    && operator_result(op, ra->Ok_0, None, r))
        } else {
            exists|
                rega: Register,
                ra: Result<NaslValue, InterpretError>,
                regb: Register,
                rb: Result<NaslValue, InterpretError>,
            |
                #![trigger passes(rega, ra, reg2, r), passes(regb, rb, reg2, r)]
                big(reg, v@[0], rega, ra) && passes(rega, ra, reg2, r) && (ra is Ok ==> big(
                    rega,
                    v@[1],
                    regb,
                    rb,
                ) && passes(regb, rb, reg2, r) && (rb is Ok ==> reg2 == regb && operator_result(
                    op,
                    ra->Ok_0,
                    Some(rb->Ok_0),
                    r,
                )))
        },
        Statement::Assign(op, order, left, right) => match *left {
            Statement::Variable(t) | Statement::Array(t, None) => match t.category {
                Category::Identifier(IdentifierType::Undefined(name)) => exists|
                    regv: Register,
                    rv: Result<NaslValue, InterpretError>,
                |
                    #![trigger passes(regv, rv, reg2, r)]
                    big(reg, *right, regv, rv) && passes(regv, rv, reg2, r) && (rv is Ok ==> stores(
                        regv,
                        reg2,
                        name@,
                        None,
                        op,
                        order,
                        rv->Ok_0,
                        r,
                    )),
                _ => r == Err::<NaslValue, InterpretError>(InterpretError::Unsupported) && reg2
                    == reg,
            },
            Statement::Array(t, Some(i)) => match t.category {
                Category::Identifier(IdentifierType::Undefined(name)) => exists|
                    regi: Register,
                    ri: Result<NaslValue, InterpretError>,
                    regv: Register,
                    rv: Result<NaslValue, InterpretError>,
                |
                    #![trigger passes(regi, ri, reg2, r), passes(regv, rv, reg2, r)]
                    big(reg, *i, regi, ri) && passes(regi, ri, reg2, r) && (ri is Ok ==> big(
                        regi,
                        *right,
                        regv,
                        rv,
                    ) && passes(regv, rv, reg2, r) && (rv is Ok ==> stores(
                        regv,
                        reg2,
                        name@,
                        Some(ri->Ok_0),
                        op,
                        order,
                        rv->Ok_0,
                        r,
                    ))),
                _ => r == Err::<NaslValue, InterpretError>(InterpretError::Unsupported) && reg2
                    == reg,
            },
            _ => r == Err::<NaslValue, InterpretError>(InterpretError::InvalidTarget) && reg2 == reg,
        },
        Statement::If(c, t, e) => exists|regc: Register, rc: Result<NaslValue, InterpretError>|
            #![trigger passes(regc, rc, reg2, r)]
            big(reg, *c, regc, rc) && passes(regc, rc, reg2, r) && (rc is Ok ==> if truth_of(
                rc->Ok_0,
            ) {
                big(regc, *t, reg2, r)
            } else {
                match e {
                    Some(x) => big(regc, *x, reg2, r),
                    None => r == Ok::<NaslValue, InterpretError>(NaslValue::Null) && reg2 == regc,
                }
            }),
        Statement::Block(_) => block_from(s, 0, reg, reg2, r),
        Statement::For(init, _, _, _) => exists|reg1: Register, ri: Result<NaslValue, InterpretError>|
            #![trigger passes(reg1, ri, reg2, r)]
            big(reg, *init, reg1, ri) && passes(reg1, ri, reg2, r) && (ri is Ok ==> loop_from(
                s,
                reg1,
                reg2,
                r,
            )),
        Statement::While(_, _) | Statement::Repeat(_, _) => loop_from(s, reg, reg2, r),
        Statement::ForEach(var, iter, _) => match var.category {
            Category::Identifier(IdentifierType::Undefined(name)) => exists|
                regi: Register,
                ri: Result<NaslValue, InterpretError>,
            |
                #![trigger passes(regi, ri, reg2, r)]
                big(reg, *iter, regi, ri) && passes(regi, ri, reg2, r) && (ri is Ok ==> each_from(
                    s,
                    name@,
                    sequence_of(ri->Ok_0),
                    0,
                    regi,
                    reg2,
                    r,
                )),
            _ => r == Err::<NaslValue, InterpretError>(InterpretError::Unsupported) && reg2 == reg,
        },
        Statement::Return(x) => exists|regx: Register, rx: Result<NaslValue, InterpretError>|
            #![trigger passes(regx, rx, reg2, r)]
            big(reg, *x, regx, rx) && passes(regx, rx, reg2, r) && (rx is Ok ==> reg2 == regx && r
                == Ok::<NaslValue, InterpretError>(NaslValue::Return(Box::new(rx->Ok_0)))),
        Statement::Exit(x) => exists|regx: Register, rx: Result<NaslValue, InterpretError>|
            #![trigger passes(regx, rx, reg2, r)]
            big(reg, *x, regx, rx) && passes(regx, rx, reg2, r) && (rx is Ok ==> reg2 == regx && r
                == Ok::<NaslValue, InterpretError>(NaslValue::Exit(int_of(rx->Ok_0)))),
        Statement::AttackCategory(c) => r == Ok::<NaslValue, InterpretError>(
            NaslValue::AttackCategory(c),
        ) && reg2 == reg,
        Statement::NoOp(_) | Statement::EoF => r == Ok::<NaslValue, InterpretError>(NaslValue::Null)
            && reg2 == reg,
        Statement::Declare(_, _) => declare_from(s, 0, reg, reg2, r),
        Statement::FunctionDeclaration(t, _, _) => r is Ok ==> r == Ok::<NaslValue, InterpretError>(
            NaslValue::Null,
        ) && t.category is Identifier && t.category->Identifier_0 is Undefined && exists|
            ps: Vec<String>,
            b: Statement,
        |
            #![trigger binds_local(
                reg,
                reg2,
                t.category->Identifier_0->Undefined_0@,
                ContextType::Function(ps, b),
            )]
            binds_local(
                reg,
                reg2,
                t.category->Identifier_0->Undefined_0@,
                ContextType::Function(ps, b),
            ),
        _ => true,
    }
}

/// Evaluating the left operand of repeat operator `parent` `k` more times: each
/// but the last first takes a step of the budget.
pub open spec fn repeats(parent: Statement, reg: Register, k: nat, reg2: Register, r: Result<NaslValue, InterpretError>) -> bool
    decreases parent, 0nat, k,
{
    match parent {
        Statement::Operator(_, v) => if v@.len() == 0 {
            false
        } else if k <= 1 {
            big(reg, v@[0], reg2, r)
        } else {
            (r == Err::<NaslValue, InterpretError>(InterpretError::StepLimit) && reg2 == reg) || exists|
                regi: Register,
                ri: Result<NaslValue, InterpretError>,
            |
                #![trigger passes(regi, ri, reg2, r)]
                big(reg, v@[0], regi, ri) && passes(regi, ri, reg2, r) && (ri is Ok ==> repeats(
                    parent,
                    regi,
                    (k - 1) as nat,
                    reg2,
                    r,
                ))
        },
        _ => false,
    }
}

/// `reg2` is `reg` with `name` bound to `Null` in the frame that `scope`
/// selects.
pub open spec fn declares(scope: DeclareScope, reg: Register, reg2: Register, name: Seq<char>) -> bool {
    match scope {
        DeclareScope::Local => binds_local(reg, reg2, name, ContextType::Value(NaslValue::Null)),
        DeclareScope::Global => reg.frames().len() >= 1 && rebound(
            reg,
            reg2,
            0,
            name,
            ContextType::Value(NaslValue::Null),
        ),
    }
}

/// Declaring the names of declaration `parent` from the `i`-th on: each name
/// is bound to `Null`; a token that is no name is an error.
pub open spec fn declare_from(parent: Statement, i: int, reg: Register, reg2: Register, r: Result<NaslValue, InterpretError>) -> bool
    decreases parent, 0nat, (if parent is Declare { parent->Declare_1@.len() - i } else { 0 }),
{
    match parent {
        Statement::Declare(scope, names) => if i < 0 || i >= names@.len() {
            r == Ok::<NaslValue, InterpretError>(NaslValue::Null) && reg2 == reg
        } else {
            match names@[i].category {
                Category::Identifier(IdentifierType::Undefined(name)) => exists|regl: Register|
                    #![trigger declares(scope, reg, regl, name@)]
                    declares(scope, reg, regl, name@) && declare_from(parent, i + 1, regl, reg2, r),
                _ => r == Err::<NaslValue, InterpretError>(InterpretError::Unsupported) && reg2 == reg,
            }
        },
        _ => false,
    }
}

/// Evaluating the statements of block `parent` from the `i`-th on.
pub open spec fn block_from(parent: Statement, i: int, reg: Register, reg2: Register, r: Result<NaslValue, InterpretError>) -> bool
    decreases parent, 0nat, (if parent is Block { parent->Block_0@.len() - i } else { 0 }),
{
    match parent {
        Statement::Block(v) => if i < 0 || i >= v@.len() {
            r == Ok::<NaslValue, InterpretError>(NaslValue::Null) && reg2 == reg
        } else {
            exists|regi: Register, ri: Result<NaslValue, InterpretError>|
                #![trigger passes(regi, ri, reg2, r)]
                big(reg, v@[i], regi, ri) && passes(regi, ri, reg2, r) && (ri is Ok ==> if is_control(
                    ri->Ok_0,
                ) {
                    r == ri && reg2 == regi
                } else {
                    block_from(parent, i + 1, regi, reg2, r)
                })
        },
        _ => false,
    }
}

/// Running loop `parent` from `start`: some rounds that go on, then the round
/// that ends it.
pub open spec fn loop_from(parent: Statement, start: Register, reg2: Register, r: Result<NaslValue, InterpretError>) -> bool
    decreases parent, 1nat, 0nat,
{
    exists|k: nat, regk: Register|
        #![trigger reached(k, regk)]
        reached(k, regk) && rounds(parent, start, k, regk) && last_round(parent, regk, reg2, r)
}

/// Marks `regk` as the register a loop reached after `k` rounds.
pub open spec fn reached(k: nat, regk: Register) -> bool {
    k >= 0
}

/// `k` rounds of loop `parent` that go on to the next round lead from `start`
/// to `cur`.
pub open spec fn rounds(parent: Statement, start: Register, k: nat, cur: Register) -> bool
    decreases parent, 0nat, k,
{
    if k == 0 {
        cur == start
    } else {
        exists|mid: Register|
            #![trigger reached((k - 1) as nat, mid)]
            reached((k - 1) as nat, mid) && rounds(parent, start, (k - 1) as nat, mid) && round(
                parent,
                mid,
                cur,
            )
    }
}

/// One round of loop `parent` from `mid` to `cur` that goes on: the condition
/// holds (`for`, `while`) or fails (`repeat`), and the body gives no control
/// value.
pub open spec fn round(parent: Statement, mid: Register, cur: Register) -> bool
    decreases parent, 0nat, 0nat,
{
    match parent {
        Statement::For(_, c, u, b) => exists|
            regc: Register,
            rc: Result<NaslValue, InterpretError>,
            regb: Register,
            rb: Result<NaslValue, InterpretError>,
            ru: Result<NaslValue, InterpretError>,
        |
            #![trigger succeeded(regc, rc), succeeded(regb, rb), succeeded(cur, ru)]
            big(mid, *c, regc, rc) && succeeded(regc, rc) && truth_of(rc->Ok_0) && big(
                regc,
                *b,
                regb,
                rb,
            ) && succeeded(regb, rb) && !is_control(rb->Ok_0) && big(regb, *u, cur, ru) && succeeded(
                cur,
                ru,
            ),
        Statement::While(c, b) => exists|
            regc: Register,
            rc: Result<NaslValue, InterpretError>,
            rb: Result<NaslValue, InterpretError>,
        |
            #![trigger succeeded(regc, rc), succeeded(cur, rb)]
            big(mid, *c, regc, rc) && succeeded(regc, rc) && truth_of(rc->Ok_0) && big(
                regc,
                *b,
                cur,
                rb,
            ) && succeeded(cur, rb) && !is_control(rb->Ok_0),
        Statement::Repeat(b, c) => exists|
            regb: Register,
            rb: Result<NaslValue, InterpretError>,
            rc: Result<NaslValue, InterpretError>,
        |
            #![trigger succeeded(regb, rb), succeeded(cur, rc)]
            big(mid, *b, regb, rb) && succeeded(regb, rb) && !is_control(rb->Ok_0) && big(
                regb,
                *c,
                cur,
                rc,
            ) && succeeded(cur, rc) && !truth_of(rc->Ok_0),
        _ => false,
    }
}

/// The round of loop `parent` from `mid` that ends it: the step budget runs
/// out, a part fails, the condition ends the loop (giving `Null`), `break`
/// ends it (giving `Null`), or the body gives `exit` or `return`, which passes
/// on.
pub open spec fn last_round(parent: Statement, mid: Register, reg2: Register, r: Result<NaslValue, InterpretError>) -> bool
    decreases parent, 0nat, 0nat,
{
    (r == Err::<NaslValue, InterpretError>(InterpretError::StepLimit) && reg2 == mid) || match parent {
        Statement::For(_, c, u, b) => exists|
            regc: Register,
            rc: Result<NaslValue, InterpretError>,
            regb: Register,
            rb: Result<NaslValue, InterpretError>,
        |
            #![trigger passes(regc, rc, reg2, r), passes(regb, rb, reg2, r)]
            big(mid, *c, regc, rc) && passes(regc, rc, reg2, r) && (rc is Ok ==> if !truth_of(
                rc->Ok_0,
            ) {
                r == Ok::<NaslValue, InterpretError>(NaslValue::Null) && reg2 == regc
            } else {
                big(regc, *b, regb, rb) && passes(regb, rb, reg2, r) && (rb is Ok ==> if rb->Ok_0
                    == NaslValue::Break {
                    r == Ok::<NaslValue, InterpretError>(NaslValue::Null) && reg2 == regb
                } else if is_control(rb->Ok_0) {
                    r == rb && reg2 == regb
                } else {
                    big(regb, *u, reg2, r) && r is Err
                })
            }),
        Statement::While(c, b) => exists|regc: Register, rc: Result<NaslValue, InterpretError>|
            #![trigger passes(regc, rc, reg2, r)]
            big(mid, *c, regc, rc) && passes(regc, rc, reg2, r) && (rc is Ok ==> if !truth_of(
                rc->Ok_0,
            ) {
                r == Ok::<NaslValue, InterpretError>(NaslValue::Null) && reg2 == regc
            } else {
                exists|regb: Register, rb: Result<NaslValue, InterpretError>|
                    #![trigger passes(regb, rb, reg2, r)]
                    big(regc, *b, regb, rb) && passes(regb, rb, reg2, r) && (rb is Ok ==> reg2 == regb
                        && (if rb->Ok_0 == NaslValue::Break {
                        r == Ok::<NaslValue, InterpretError>(NaslValue::Null)
                    } else {
                        is_control(rb->Ok_0) && r == rb
                    }))
            }),
        Statement::Repeat(b, c) => exists|regb: Register, rb: Result<NaslValue, InterpretError>|
            #![trigger passes(regb, rb, reg2, r)]
            big(mid, *b, regb, rb) && passes(regb, rb, reg2, r) && (rb is Ok ==> if rb->Ok_0
                == NaslValue::Break {
                r == Ok::<NaslValue, InterpretError>(NaslValue::Null) && reg2 == regb
            } else if is_control(rb->Ok_0) {
                r == rb && reg2 == regb
            } else {
                exists|rc: Result<NaslValue, InterpretError>|
                    #![trigger passes(reg2, rc, reg2, r)]
                    big(regb, *c, reg2, rc) && passes(reg2, rc, reg2, r) && (rc is Ok ==> truth_of(
                        rc->Ok_0,
                    ) && r == Ok::<NaslValue, InterpretError>(NaslValue::Null))
            }),
        _ => false,
    }
}

/// Running the body of `foreach` loop `parent` with `name` bound to each of
/// `items` from the `i`-th on.
pub open spec fn each_from(
    parent: Statement,
    name: Seq<char>,
    items: Seq<NaslValue>,
    i: int,
    reg: Register,
    reg2: Register,
    r: Result<NaslValue, InterpretError>,
) -> bool
    decreases parent, 0nat, items.len() - i,
{
    match parent {
        Statement::ForEach(_, _, b) => if i < 0 || i >= items.len() {
            r == Ok::<NaslValue, InterpretError>(NaslValue::Null) && reg2 == reg
        } else {
            exists|regl: Register, regb: Register, rb: Result<NaslValue, InterpretError>|
                #![trigger binds_local(reg, regl, name, ContextType::Value(items[i])), passes(regb, rb, reg2, r)]
                binds_local(reg, regl, name, ContextType::Value(items[i])) && big(regl, *b, regb, rb)
                    && passes(regb, rb, reg2, r) && (rb is Ok ==> if rb->Ok_0 == NaslValue::Break {
                    r == Ok::<NaslValue, InterpretError>(NaslValue::Null) && reg2 == regb
                } else if is_control(rb->Ok_0) {
                    r == rb && reg2 == regb
                } else {
                    each_from(parent, name, items, i + 1, regb, reg2, r)
                })
        },
        _ => false,
    }
}

/// Evaluates statements over a register.
pub struct Interpreter<E: FunctionExecuter> {
    register: Register,
    steps: u64,
    sources: Vec<(String, String)>,
    builtins: E,
}

impl<E: FunctionExecuter> Interpreter<E> {
    /// Whether the register keeps its root frame.
    pub closed spec fn wf(self) -> bool {
        self.register.wf()
    }

    /// The register, as a value.
    pub closed spec fn variables(self) -> Register {
        self.register
    }

    /// The steps that loops may still take.
    pub closed spec fn steps_left(self) -> u64 {
        self.steps
    }

    /// An interpreter over a register with an empty root frame, with
    /// `builtins` for calls that no user function answers.
    pub fn new(builtins: E) -> (r: Interpreter<E>)
        ensures
            r.wf(),
            r.variables().frames() == seq![Seq::<(String, ContextType)>::empty()],
            r.steps_left() == STEP_BUDGET,
    {
        Interpreter {
            register: Register::create_root(Vec::new()),
            steps: STEP_BUDGET,
            sources: Vec::new(),
            builtins,
        }
    }

    /// An interpreter whose inclusions find each source under its key.
    pub fn with_sources(builtins: E, sources: Vec<(String, String)>) -> (r: Interpreter<E>)
        ensures
            r.wf(),
            r.variables().frames() == seq![Seq::<(String, ContextType)>::empty()],
            r.steps_left() == STEP_BUDGET,
    {
        Interpreter {
            register: Register::create_root(Vec::new()),
            steps: STEP_BUDGET,
            sources,
            builtins,
        }
    }

    /// The source known under `key`.
    fn source(&self, key: &str) -> (r: Option<String>) {
        let mut i: usize = 0;
        while i < self.sources.len()
            invariant
                i <= self.sources@.len(),
            decreases self.sources@.len() - i,
        {
            if crate::value::same_text(self.sources[i].0.as_str(), key) {
                return Some(self.sources[i].1.clone());
            }
            i = i + 1;
        }
        None
    }

    // Evaluates the source named by `key` in the current register.
    fn run_inclusion(&mut self, statement: &Statement, key: &Statement, depth: u64) -> (r: Result<
        NaslValue,
        InterpretError,
    >)
        requires
            old(self).register.wf(),
            statement is Include && *statement->Include_0 == *key,
        ensures
            final(self).register.wf(),
            final(self).steps <= old(self).steps,
        decreases depth, statement, 0nat,
    {
        proof {
            assert(decreases_to!(*statement => statement->Include_0));
        }
        let name = match self.eval(key, depth) {
            Ok(v) => v.to_text(),
            Err(e) => {
                return Err(e);
            },
        };
        let code = match self.source(name.as_str()) {
            Some(c) => c,
            None => {
                return Err(InterpretError::Load(name));
            },
        };
        if depth == 0 {
            return Err(InterpretError::StepLimit);
        }
        let statements = crate::parser::parse(code.as_str());
        let mut i: usize = 0;
        while i < statements.len()
            invariant
                i <= statements@.len(),
                depth > 0,
                self.register.wf(),
                self.steps <= old(self).steps,
            decreases statements@.len() - i,
        {
            match &statements[i] {
                Ok(s) => match self.eval(s, depth - 1) {
                    Ok(v) => {
                        if control(&v) {
                            return Ok(v);
                        }
                    },
                    Err(e) => {
                        return Err(e);
                    },
                },
                Err(_) => {
                    return Err(InterpretError::Syntax);
                },
            }
            i = i + 1;
        }
        Ok(NaslValue::Null)
    }

    /// The register.
    pub fn register(&self) -> (r: &Register)
        ensures
            self.wf() ==> r.wf(),
    {
        &self.register
    }

    /// Evaluates one statement.
    pub fn resolve(&mut self, statement: &Statement) -> (r: Result<NaslValue, InterpretError>)
        requires
            old(self).wf(),
        ensures
            final(self).wf(),
            final(self).steps_left() <= old(self).steps_left(),
            direct_result(old(self).variables(), *statement, r),
            operator_statement_result(*statement, r),
            assign_statement_result(*statement, r),
            shape_result(*statement, r),
            pure_expr(*statement) ==> evaluates(old(self).variables(), *statement, r)
                && final(self).variables() == old(self).variables(),
            assign_outcome(old(self).variables(), final(self).variables(), *statement, r),
            big(old(self).variables(), *statement, final(self).variables(), r),
            step_outcome(old(self).variables(), final(self).variables(), *statement, r),
    {
        self.eval(statement, CALL_DEPTH)
    }

    fn take_step(&mut self) -> (r: Result<(), InterpretError>)
        ensures
            final(self).register == old(self).register,
            r is Ok ==> old(self).steps > 0 && final(self).steps == old(self).steps - 1,
            r is Err ==> final(self).steps == old(self).steps,
            r is Err ==> r == Err::<(), InterpretError>(InterpretError::StepLimit),
    {
        if self.steps == 0 {
            Err(InterpretError::StepLimit)
        } else {
            self.steps = self.steps - 1;
            Ok(())
        }
    }

    fn lookup_value(&self, name: &str) -> (r: Result<(usize, NaslValue), InterpretError>)
        requires
            self.register.wf(),
        ensures
            r is Ok ==> r->Ok_0.0 < self.register.frames().len(),
            r is Ok ==> r->Ok_0.0 == target_frame(self.register, name@) && current_of(
                self.register,
                name@,
                r->Ok_0.1,
            ),
            r is Err <==> names_function(self.register, name@),
            variable_result(self.register, name@, match r {
                Ok((_, v)) => Ok(v),
                Err(e) => Err(e),
            }),
    {
        proof {
            crate::register::lemma_frames_nonempty(self.register);
        }
        match self.register.index_named(name) {
            Some((idx, ContextType::Value(v))) => {
                proof {
                    crate::register::lemma_find_named_in_range(self.register, name@);
                }
                Ok((idx, v.deep_clone()))
            },
            Some((_, ContextType::Function(_, _))) => Err(
                InterpretError::NotAssignable(name.to_owned()),
            ),
            None => Ok((0, NaslValue::Null)),
        }
    }

    fn eval(&mut self, statement: &Statement, depth: u64) -> (r: Result<NaslValue, InterpretError>)
        requires
            old(self).register.wf(),
        ensures
            final(self).register.wf(),
            final(self).steps <= old(self).steps,
            direct_result(old(self).register, *statement, r),
            operator_statement_result(*statement, r),
            assign_statement_result(*statement, r),
            shape_result(*statement, r),
            pure_expr(*statement) ==> evaluates(old(self).register, *statement, r)
                && final(self).register == old(self).register,
            assign_outcome(old(self).register, final(self).register, *statement, r),
            big(old(self).register, *statement, final(self).register, r),
        decreases depth, statement, 1nat,
    {
        let ghost reg0 = self.register;
        match statement {
            Statement::Primitive(token) => match &token.category {
                Category::Number(n) => Ok(NaslValue::Number(*n)),
                Category::String(s) => Ok(NaslValue::String(s.clone())),
                Category::Identifier(IdentifierType::Undefined(s)) => Ok(NaslValue::String(s.clone())),
                Category::Identifier(IdentifierType::True) => Ok(NaslValue::Boolean(true)),
                Category::Identifier(IdentifierType::False) => Ok(NaslValue::Boolean(false)),
                Category::Identifier(IdentifierType::Null) => Ok(NaslValue::Null),
                Category::Identifier(IdentifierType::FCTAnonArgs) => Ok(NaslValue::Null),
                _ => Err(InterpretError::Unsupported),
            },
            Statement::Variable(token) | Statement::Array(token, None) => {
                let name = match identifier(token) {
                    Ok(n) => n,
                    Err(e) => {
                        return Err(e);
                    },
                };
                match self.lookup_value(name.as_str()) {
                    Ok((_, v)) => Ok(v),
                    Err(e) => Err(e),
                }
            },
            Statement::Array(token, Some(index)) => {
                let name = match identifier(token) {
                    Ok(n) => n,
                    Err(e) => {
                        return Err(e);
                    },
                };
                let ri = self.eval(index, depth);
                let ghost gri = ri;
                let ghost regi = self.register;
                let idx = match ri {
                    Ok(v) => v,
                    Err(e) => {
                        proof {
                            if pure_expr(*statement) {
                                assert(evaluates(reg0, **index, gri) && propagates(gri, gri));
                            }
                            assert(big(reg0, **index, regi, gri) && passes(regi, gri, self.register, gri));
                        }
                        return Err(e);
                    },
                };
                let (_, current) = match self.lookup_value(name.as_str()) {
                    Ok(x) => x,
                    Err(e) => {
                        let r = Err(e);
                        proof {
                            if pure_expr(*statement) {
                                assert(indexed_result(reg0, name@, idx, r));
                                assert(evaluates(reg0, **index, gri) && propagates(gri, r));
                            }
                            assert(indexed_result(regi, name@, idx, r));
                            assert(big(reg0, **index, regi, gri) && passes(regi, gri, self.register, r));
                        }
                        return r;
                    },
                };
                let ghost gc = current;
                let r = read_element(current, idx, name);
                proof {
                    if pure_expr(*statement) {
                        assert(element_result(gc, idx, r));
                        assert(indexed_result(reg0, name@, idx, r));
                        assert(evaluates(reg0, **index, gri) && propagates(gri, r));
                    }
                    assert(element_result(gc, idx, r));
                    assert(indexed_result(regi, name@, idx, r));
                    assert(big(reg0, **index, regi, gri) && passes(regi, gri, self.register, r));
                }
                r
            },
            Statement::Parameter(items) => {
                let mut out: Vec<NaslValue> = Vec::new();
                let mut i: usize = 0;
                while i < items.len()
                    invariant
                        i <= items@.len(),
                        out@.len() == i,
                        *statement == Statement::Parameter(*items),
                        self.register.wf(),
                        self.steps <= old(self).steps,
                    decreases items@.len() - i,
                {
                    proof {
                        assert(decreases_to!(*statement => statement->Parameter_0));
                        assert(decreases_to!(*items => items@));
                        assert(decreases_to!(items@ => items@[i as int]));
                    }
                    match self.eval(&items[i], depth) {
                        Ok(v) => out.push(v),
                        Err(e) => {
                            return Err(e);
                        },
                    }
                    i = i + 1;
                }
                Ok(NaslValue::Array(out))
            },
            Statement::Assign(_, _, _, _) => self.assign(statement, depth),
            Statement::Operator(op, operands) => {
                if operands.len() == 0 {
                    return Err(InterpretError::Unsupported);
                }
                proof {
                    assert(decreases_to!(*statement => statement->Operator_1));
                    assert(decreases_to!(*operands => operands@));
                    assert(decreases_to!(operands@ => operands@[0]));
                }
                if matches!(op, Category::X) {
                    if operands.len() < 2 {
                        return Err(InterpretError::Unsupported);
                    }
                    proof {
                        assert(decreases_to!(operands@ => operands@[1]));
                    }
                    let rn = self.eval(&operands[1], depth);
                    let ghost grn = rn;
                    let ghost regn = self.register;
                    let times = match rn {
                        Ok(v) => v.to_i64(),
                        Err(e) => {
                            proof {
                                if pure_expr(*statement) {
                                    assert(evaluates(reg0, operands@[1], grn) && propagates(grn, grn));
                                }
                                assert(big(reg0, operands@[1], regn, grn) && passes(regn, grn, regn, grn));
                            }
                            return Err(e);
                        },
                    };
                    if times == 0 {
                        let r = Ok(NaslValue::Null);
                        proof {
                            if pure_expr(*statement) {
                                assert(evaluates(reg0, operands@[1], grn) && propagates(grn, r));
                            }
                            assert(big(reg0, operands@[1], regn, grn) && passes(regn, grn, regn, r));
                        }
                        return r;
                    }
                    let ghost count = repeat_count(times);
                    let mut left: i64 = if times > 1 {
                        times - 1
                    } else {
                        0
                    };
                    while left > 0
                        invariant
                            *statement == Statement::Operator(*op, *operands),
                            *op == Category::X,
                            operands@.len() >= 2,
                            self.register.wf(),
                            self.steps <= old(self).steps,
                            pure_expr(*statement) ==> self.register == reg0,
                            reg0 == old(self).register,
                            pure_expr(*statement) ==> evaluates(reg0, operands@[1], grn),
                            grn is Ok && int_of(grn->Ok_0) != 0,
                            int_of(grn->Ok_0) == times,
                            count == repeat_count(times),
                            big(reg0, operands@[1], regn, grn),
                            0 <= left,
                            forall|reg2: Register, r: Result<NaslValue, InterpretError>|
                                #![trigger repeats(*statement, self.register, (left + 1) as nat, reg2, r)]
                                repeats(*statement, self.register, (left + 1) as nat, reg2, r)
                                    ==> repeats(*statement, regn, count, reg2, r),
                        decreases self.steps,
                    {
                        proof {
                            assert(decreases_to!(*statement => statement->Operator_1));
                            assert(decreases_to!(*operands => operands@));
                            assert(decreases_to!(operands@ => operands@[0]));
                        }
                        let ghost cur = self.register;
                        match self.take_step() {
                            Ok(()) => {},
                            Err(e) => {
                                let r = Err(e);
                                proof {
                                    if pure_expr(*statement) {
                                        assert(evaluates(reg0, operands@[1], grn) && propagates(grn, r));
                                    }
                                    assert(repeats(*statement, cur, (left + 1) as nat, cur, r));
                                    assert(big(reg0, operands@[1], regn, grn) && passes(regn, grn, self.register, r));
                                }
                                return r;
                            },
                        }
                        let ri = self.eval(&operands[0], depth);
                        let ghost gri = ri;
                        let ghost regi = self.register;
                        match ri {
                            Ok(_) => {},
                            Err(e) => {
                                let r = Err(e);
                                proof {
                                    if pure_expr(*statement) {
                                        assert(evaluates(reg0, operands@[1], grn) && propagates(grn, r));
                                    }
                                    assert(big(cur, operands@[0], regi, gri) && passes(regi, gri, self.register, r));
                                    assert(repeats(*statement, cur, (left + 1) as nat, self.register, r));
                                    assert(big(reg0, operands@[1], regn, grn) && passes(regn, grn, self.register, r));
                                }
                                return r;
                            },
                        }
                        proof {
                            assert forall|reg2: Register, r: Result<NaslValue, InterpretError>|
                                repeats(*statement, regi, left as nat, reg2, r) implies repeats(
                                *statement,
                                regn,
                                count,
                                reg2,
                                r,
                            ) by {
                                assert(big(cur, operands@[0], regi, gri) && passes(regi, gri, reg2, r));
                                assert(repeats(*statement, cur, (left + 1) as nat, reg2, r));
                            }
                        }
                        left = left - 1;
                    }
                    let ghost cur = self.register;
                    let r = self.eval(&operands[0], depth);
                    proof {
                        if pure_expr(*statement) {
                            assert(evaluates(reg0, operands@[1], grn) && propagates(grn, r));
                        }
                        assert(left == 0);
                        assert(repeats(*statement, cur, 1, self.register, r));
                        assert(repeats(*statement, cur, (left + 1) as nat, self.register, r));
                        assert(big(reg0, operands@[1], regn, grn) && passes(regn, grn, self.register, r));
                    }
                    return r;
                }
                let ra = self.eval(&operands[0], depth);
                let ghost gra = ra;
                let ghost rega = self.register;
                let a = match ra {
                    Ok(v) => v,
                    Err(e) => {
                        proof {
                            let (regb, rb) = (rega, gra);
                            assert(big(reg0, operands@[0], rega, gra) && passes(rega, gra, rega, gra));
                            assert(passes(rega, gra, rega, gra) && passes(regb, rb, rega, gra));
                            if pure_expr(*statement) {
                                if operands@.len() == 1 {
                                    assert(evaluates(reg0, operands@[0], gra) && propagates(gra, gra));
                                } else {
                                    let rb = gra;
                                    assert(evaluates(reg0, operands@[0], gra) && propagates(gra, gra));
                                    assert(propagates(gra, gra) && second_operand(*op, gra->Ok_0, rb, gra));
                                }
                            }
                        }
                        return Err(e);
                    },
                };
                let ghost ga = a;
                let b = if operands.len() >= 2 {
                    proof {
                        assert(decreases_to!(operands@ => operands@[1]));
                    }
                    let rb = self.eval(&operands[1], depth);
                    let ghost grb = rb;
                    let ghost regb = self.register;
                    match rb {
                        Ok(v) => Some(v),
                        Err(e) => {
                            proof {
                                assert(big(reg0, operands@[0], rega, gra) && passes(rega, gra, regb, grb));
                                assert(big(rega, operands@[1], regb, grb));
                                assert(passes(rega, gra, regb, grb) && passes(regb, grb, regb, grb));
                                if pure_expr(*statement) {
                                    assert(evaluates(reg0, operands@[0], gra) && propagates(gra, grb));
                                    assert(evaluates(reg0, operands@[1], grb) && second_operand(*op, ga, grb, grb));
                                    assert(propagates(gra, grb) && second_operand(*op, gra->Ok_0, grb, grb));
                                }
                            }
                            return Err(e);
                        },
                    }
                } else {
                    None
                };
                let ghost gb = b;
                let ghost regb = self.register;
                let result = operate(op, a, b);
                proof {
                    if operands@.len() >= 2 {
                        let grb = Ok::<NaslValue, InterpretError>(gb->Some_0);
                        assert(big(reg0, operands@[0], rega, gra) && passes(rega, gra, regb, result));
                        assert(passes(rega, gra, regb, result) && passes(regb, grb, regb, result));
                    } else {
                        assert(big(reg0, operands@[0], rega, gra) && passes(rega, gra, regb, result));
                    }
                    if operands@.len() >= 2 {
                        assert(operator_result(*op, ga, Some(gb->Some_0), result));
                        if pure_expr(*statement) {
                            let grb = Ok::<NaslValue, InterpretError>(gb->Some_0);
                            assert(evaluates(reg0, operands@[1], grb));
                            assert(evaluates(reg0, operands@[0], gra) && propagates(gra, result));
                            assert(propagates(gra, result) && second_operand(*op, gra->Ok_0, grb, result));
                        }
                    } else {
                        assert(operator_result(*op, ga, None, result));
                        if pure_expr(*statement) {
                            assert(evaluates(reg0, operands@[0], gra) && propagates(gra, result));
                        }
                    }
                }
                result
            },
            Statement::If(cond, then, other) => {
                let rc = self.eval(cond, depth);
                let ghost grc = rc;
                let ghost regc = self.register;
                let c = match rc {
                    Ok(v) => v,
                    Err(e) => {
                        proof {
                            if pure_expr(*statement) {
                                assert(evaluates(reg0, **cond, grc) && propagates(grc, grc));
                            }
                            assert(big(reg0, **cond, regc, grc) && passes(regc, grc, regc, grc));
                        }
                        return Err(e);
                    },
                };
                let r = if c.to_bool() {
                    self.eval(then, depth)
                } else {
                    match other {
                        Some(e) => self.eval(e, depth),
                        None => Ok(NaslValue::Null),
                    }
                };
                proof {
                    if pure_expr(*statement) {
                        assert(evaluates(reg0, **cond, grc) && propagates(grc, r));
                    }
                    assert(big(reg0, **cond, regc, grc) && passes(regc, grc, self.register, r));
                }
                r
            },
            Statement::Block(items) => {
                let mut i: usize = 0;
                while i < items.len()
                    invariant
                        i <= items@.len(),
                        *statement == Statement::Block(*items),
                        self.register.wf(),
                        self.steps <= old(self).steps,
                        reg0 == old(self).register,
                        forall|reg2: Register, r: Result<NaslValue, InterpretError>|
                            #![trigger block_from(*statement, i as int, self.register, reg2, r)]
                            block_from(*statement, i as int, self.register, reg2, r) ==> block_from(
                                *statement,
                                0,
                                reg0,
                                reg2,
                                r,
                            ),
                    decreases items@.len() - i,
                {
                    proof {
                        assert(decreases_to!(*statement => statement->Block_0));
                        assert(decreases_to!(*items => items@));
                        assert(decreases_to!(items@ => items@[i as int]));
                    }
                    let ghost cur = self.register;
                    let ri = self.eval(&items[i], depth);
                    let ghost gri = ri;
                    let ghost regi = self.register;
                    match ri {
                        Ok(v) => {
                            if control(&v) {
                                let r = Ok(v);
                                proof {
                                    assert(big(cur, items@[i as int], regi, gri) && passes(regi, gri, regi, r));
                                    assert(block_from(*statement, i as int, cur, regi, r));
                                }
                                return r;
                            }
                        },
                        Err(e) => {
                            let r = Err(e);
                            proof {
                                assert(big(cur, items@[i as int], regi, gri) && passes(regi, gri, regi, r));
                                assert(block_from(*statement, i as int, cur, regi, r));
                            }
                            return r;
                        },
                    }
                    proof {
                        assert forall|reg2: Register, r: Result<NaslValue, InterpretError>|
                            block_from(*statement, i + 1, regi, reg2, r) implies block_from(
                            *statement,
                            0,
                            reg0,
                            reg2,
                            r,
                        ) by {
                            assert(big(cur, items@[i as int], regi, gri) && passes(regi, gri, reg2, r));
                            assert(block_from(*statement, i as int, cur, reg2, r));
                        }
                    }
                    i = i + 1;
                }
                let r = Ok(NaslValue::Null);
                proof {
                    assert(block_from(*statement, i as int, self.register, self.register, r));
                }
                r
            },
            Statement::For(init, cond, update, body) => {
                proof {
                    assert(decreases_to!(*statement => statement->For_0));
                }
                let ri = self.eval(init, depth);
                let ghost gri = ri;
                let ghost reg1 = self.register;
                match ri {
                    Ok(_) => {},
                    Err(e) => {
                        proof {
                            assert(big(reg0, **init, reg1, gri) && passes(reg1, gri, self.register, gri));
                            assert(rounds(*statement, reg1, 0, reg1) == (reg1 == reg1));
                        }
                        return Err(e);
                    },
                }
                let ghost mut k: nat = 0;
                loop
                    invariant
                        *statement == Statement::For(*init, *cond, *update, *body),
                        self.register.wf(),
                        self.steps <= old(self).steps,
                        reg0 == old(self).register,
                        big(reg0, **init, reg1, gri),
                        gri is Ok,
                        rounds(*statement, reg1, k, self.register),
                    decreases self.steps,
                {
                    proof {
                        assert(decreases_to!(*statement => statement->For_1));
                        assert(decreases_to!(*statement => statement->For_2));
                        assert(decreases_to!(*statement => statement->For_3));
                    }
                    let ghost mid = self.register;
                    let r: Result<NaslValue, InterpretError>;
                    match self.take_step() {
                        Ok(()) => {},
                        Err(e) => {
                            r = Err(e);
                            proof {
                                assert(last_round(*statement, mid, self.register, r));
                                assert(reached(k, mid) && rounds(*statement, reg1, k, mid) && last_round(*statement, mid, self.register, r));
                                assert(loop_from(*statement, reg1, self.register, r));
                                assert(big(reg0, **init, reg1, gri) && passes(reg1, gri, self.register, r));
                            }
                            return r;
                        },
                    }
                    let rc = self.eval(cond, depth);
                    let ghost grc = rc;
                    let ghost regc = self.register;
                    let c = match rc {
                        Ok(v) => v,
                        Err(e) => {
                            r = Err(e);
                            proof {
                                let (regb, rb) = (regc, grc);
                                assert(big(mid, **cond, regc, grc) && passes(regc, grc, self.register, r));
                                assert(passes(regc, grc, self.register, r) && passes(regb, rb, self.register, r));
                                assert(reached(k, mid) && rounds(*statement, reg1, k, mid) && last_round(*statement, mid, self.register, r));
                                assert(loop_from(*statement, reg1, self.register, r));
                                assert(big(reg0, **init, reg1, gri) && passes(reg1, gri, self.register, r));
                            }
                            return r;
                        },
                    };
                    if !c.to_bool() {
                        r = Ok(NaslValue::Null);
                        proof {
                            let (regb, rb) = (regc, grc);
                            assert(big(mid, **cond, regc, grc) && passes(regc, grc, self.register, r));
                            assert(passes(regc, grc, self.register, r) && passes(regb, rb, self.register, r));
                            assert(reached(k, mid) && rounds(*statement, reg1, k, mid) && last_round(*statement, mid, self.register, r));
                            assert(loop_from(*statement, reg1, self.register, r));
                            assert(big(reg0, **init, reg1, gri) && passes(reg1, gri, self.register, r));
                        }
                        return r;
                    }
                    let rb = self.eval(body, depth);
                    let ghost grb = rb;
                    let ghost regb = self.register;
                    let stop = match &rb {
                        Ok(NaslValue::Break) => true,
                        Ok(v) => control(v),
                        Err(_) => true,
                    };
                    if stop {
                        r = match rb {
                            Ok(NaslValue::Break) => Ok(NaslValue::Null),
                            other => other,
                        };
                        proof {
                            assert(big(regc, **body, regb, grb) && passes(regb, grb, self.register, r));
                            assert(passes(regc, grc, self.register, r) && passes(regb, grb, self.register, r));
                            assert(reached(k, mid) && rounds(*statement, reg1, k, mid) && last_round(*statement, mid, self.register, r));
                            assert(loop_from(*statement, reg1, self.register, r));
                            assert(big(reg0, **init, reg1, gri) && passes(reg1, gri, self.register, r));
                        }
                        return r;
                    }
                    let ru = self.eval(update, depth);
                    let ghost gru = ru;
                    match ru {
                        Ok(_) => {},
                        Err(e) => {
                            r = Err(e);
                            proof {
                                assert(big(regb, **update, self.register, r) && r is Err);
                                assert(passes(regc, grc, self.register, r) && passes(regb, grb, self.register, r));
                                assert(reached(k, mid) && rounds(*statement, reg1, k, mid) && last_round(*statement, mid, self.register, r));
                                assert(loop_from(*statement, reg1, self.register, r));
                                assert(big(reg0, **init, reg1, gri) && passes(reg1, gri, self.register, r));
                            }
                            return r;
                        },
                    }
                    proof {
                        assert(succeeded(regc, grc) && succeeded(regb, grb) && succeeded(self.register, gru));
                        assert(round(*statement, mid, self.register));
                        assert(reached(k, mid));
                        k = k + 1;
                        assert(reached((k - 1) as nat, mid) && rounds(*statement, reg1, (k - 1) as nat, mid));
                        assert(rounds(*statement, reg1, k, self.register));
                    }
                }
            },
            Statement::While(cond, body) => {
                let ghost mut k: nat = 0;
                loop
                    invariant
                        *statement == Statement::While(*cond, *body),
                        self.register.wf(),
                        self.steps <= old(self).steps,
                        reg0 == old(self).register,
                        rounds(*statement, reg0, k, self.register),
                    decreases self.steps,
                {
                    proof {
                        assert(decreases_to!(*statement => statement->While_0));
                        assert(decreases_to!(*statement => statement->While_1));
                    }
                    let ghost mid = self.register;
                    let r: Result<NaslValue, InterpretError>;
                    match self.take_step() {
                        Ok(()) => {},
                        Err(e) => {
                            r = Err(e);
                            proof {
                                assert(last_round(*statement, mid, self.register, r));
                                assert(reached(k, mid) && rounds(*statement, reg0, k, mid) && last_round(*statement, mid, self.register, r));
                                assert(loop_from(*statement, reg0, self.register, r));
                            }
                            return r;
                        },
                    }
                    let rc = self.eval(cond, depth);
                    let ghost grc = rc;
                    let ghost regc = self.register;
                    let c = match rc {
                        Ok(v) => v,
                        Err(e) => {
                            r = Err(e);
                            proof {
                                assert(big(mid, **cond, regc, grc) && passes(regc, grc, self.register, r));
                                assert(reached(k, mid) && rounds(*statement, reg0, k, mid) && last_round(*statement, mid, self.register, r));
                                assert(loop_from(*statement, reg0, self.register, r));
                            }
                            return r;
                        },
                    };
                    if !c.to_bool() {
                        r = Ok(NaslValue::Null);
                        proof {
                            assert(big(mid, **cond, regc, grc) && passes(regc, grc, self.register, r));
                            assert(reached(k, mid) && rounds(*statement, reg0, k, mid) && last_round(*statement, mid, self.register, r));
                            assert(loop_from(*statement, reg0, self.register, r));
                        }
                        return r;
                    }
                    let rb = self.eval(body, depth);
                    let ghost grb = rb;
                    let stop = match &rb {
                        Ok(NaslValue::Break) => true,
                        Ok(v) => control(v),
                        Err(_) => true,
                    };
                    if stop {
                        r = match rb {
                            Ok(NaslValue::Break) => Ok(NaslValue::Null),
                            other => other,
                        };
                        proof {
                            assert(big(regc, **body, self.register, grb) && passes(self.register, grb, self.register, r));
                            assert(big(mid, **cond, regc, grc) && passes(regc, grc, self.register, r));
                            assert(reached(k, mid) && rounds(*statement, reg0, k, mid) && last_round(*statement, mid, self.register, r));
                            assert(loop_from(*statement, reg0, self.register, r));
                        }
                        return r;
                    }
                    proof {
                        assert(succeeded(regc, grc) && succeeded(self.register, grb));
                        assert(round(*statement, mid, self.register));
                        assert(reached(k, mid));
                        k = k + 1;
                        assert(reached((k - 1) as nat, mid) && rounds(*statement, reg0, (k - 1) as nat, mid));
                        assert(rounds(*statement, reg0, k, self.register));
                    }
                }
            },
            Statement::Repeat(body, cond) => {
                let ghost mut k: nat = 0;
                loop
                    invariant
                        *statement == Statement::Repeat(*body, *cond),
                        self.register.wf(),
                        self.steps <= old(self).steps,
                        reg0 == old(self).register,
                        rounds(*statement, reg0, k, self.register),
                    decreases self.steps,
                {
                    proof {
                        assert(decreases_to!(*statement => statement->Repeat_0));
                        assert(decreases_to!(*statement => statement->Repeat_1));
                    }
                    let ghost mid = self.register;
                    let r: Result<NaslValue, InterpretError>;
                    match self.take_step() {
                        Ok(()) => {},
                        Err(e) => {
                            r = Err(e);
                            proof {
                                assert(last_round(*statement, mid, self.register, r));
                                assert(reached(k, mid) && rounds(*statement, reg0, k, mid) && last_round(*statement, mid, self.register, r));
                                assert(loop_from(*statement, reg0, self.register, r));
                            }
                            return r;
                        },
                    }
                    let rb = self.eval(body, depth);
                    let ghost grb = rb;
                    let ghost regb = self.register;
                    let stop = match &rb {
                        Ok(NaslValue::Break) => true,
                        Ok(v) => control(v),
                        Err(_) => true,
                    };
                    if stop {
                        r = match rb {
                            Ok(NaslValue::Break) => Ok(NaslValue::Null),
                            other => other,
                        };
                        proof {
                            assert(big(mid, **body, regb, grb) && passes(regb, grb, self.register, r));
                            assert(reached(k, mid) && rounds(*statement, reg0, k, mid) && last_round(*statement, mid, self.register, r));
                            assert(loop_from(*statement, reg0, self.register, r));
                        }
                        return r;
                    }
                    let rc = self.eval(cond, depth);
                    let ghost grc = rc;
                    let c = match rc {
                        Ok(v) => v,
                        Err(e) => {
                            r = Err(e);
                            proof {
                                assert(big(regb, **cond, self.register, grc) && passes(self.register, grc, self.register, r));
                                assert(big(mid, **body, regb, grb) && passes(regb, grb, self.register, r));
                                assert(reached(k, mid) && rounds(*statement, reg0, k, mid) && last_round(*statement, mid, self.register, r));
                                assert(loop_from(*statement, reg0, self.register, r));
                            }
                            return r;
                        },
                    };
                    if c.to_bool() {
                        r = Ok(NaslValue::Null);
                        proof {
                            assert(big(regb, **cond, self.register, grc) && passes(self.register, grc, self.register, r));
                            assert(big(mid, **body, regb, grb) && passes(regb, grb, self.register, r));
                            assert(reached(k, mid) && rounds(*statement, reg0, k, mid) && last_round(*statement, mid, self.register, r));
                            assert(loop_from(*statement, reg0, self.register, r));
                        }
                        return r;
                    }
                    proof {
                        assert(succeeded(regb, grb) && succeeded(self.register, grc));
                        assert(round(*statement, mid, self.register));
                        assert(reached(k, mid));
                        k = k + 1;
                        assert(reached((k - 1) as nat, mid) && rounds(*statement, reg0, (k - 1) as nat, mid));
                        assert(rounds(*statement, reg0, k, self.register));
                    }
                }
            },
            Statement::ForEach(var, iterable, body) => {
                let name = match identifier(var) {
                    Ok(n) => n,
                    Err(e) => {
                        return Err(e);
                    },
                };
                proof {
                    assert(decreases_to!(*statement => statement->ForEach_1));
                }
                let ri = self.eval(iterable, depth);
                let ghost gri = ri;
                let ghost regi = self.register;
                let v = match ri {
                    Ok(v) => v,
                    Err(e) => {
                        proof {
                            assert(big(reg0, **iterable, regi, gri) && passes(regi, gri, regi, gri));
                        }
                        return Err(e);
                    },
                };
                let ghost all = sequence_of(v);
                let mut items = into_sequence(v);
                let ghost mut i: int = 0;
                proof {
                    assert(items@.subrange(0, all.len() as int) =~= items@);
                }
                while items.len() > 0
                    invariant
                        *statement == Statement::ForEach(*var, *iterable, *body),
                        self.register.wf(),
                        self.steps <= old(self).steps,
                        reg0 == old(self).register,
                        big(reg0, **iterable, regi, gri),
                        gri is Ok,
                        all == sequence_of(gri->Ok_0),
                        var.category is Identifier && var.category->Identifier_0 is Undefined,
                        *name == var.category->Identifier_0->Undefined_0,
                        0 <= i <= all.len(),
                        items@ == all.subrange(i, all.len() as int),
                        forall|reg2: Register, r: Result<NaslValue, InterpretError>|
                            #![trigger each_from(*statement, name@, all, i, self.register, reg2, r)]
                            each_from(*statement, name@, all, i, self.register, reg2, r) ==> each_from(
                                *statement,
                                name@,
                                all,
                                0,
                                regi,
                                reg2,
                                r,
                            ),
                    decreases items@.len(),
                {
                    proof {
                        assert(decreases_to!(*statement => statement->ForEach_2));
                    }
                    let ghost cur = self.register;
                    proof {
                        crate::register::lemma_frames_nonempty(cur);
                    }
                    let item = items.remove(0);
                    self.register.add_local(name.as_str(), ContextType::Value(item));
                    let ghost regl = self.register;
                    proof {
                        assert(item == all[i]);
                        assert(binds_local(cur, regl, name@, ContextType::Value(all[i])));
                    }
                    let rb = self.eval(body, depth);
                    let ghost grb = rb;
                    let ghost regb = self.register;
                    let stop = match &rb {
                        Ok(NaslValue::Break) => true,
                        Ok(v) => control(v),
                        Err(_) => true,
                    };
                    if stop {
                        let r = match rb {
                            Ok(NaslValue::Break) => Ok(NaslValue::Null),
                            other => other,
                        };
                        proof {
                            assert(binds_local(cur, regl, name@, ContextType::Value(all[i])) && passes(regb, grb, regb, r));
                            assert(big(regl, **body, regb, grb));
                            assert(each_from(*statement, name@, all, i, cur, regb, r));
                            assert(big(reg0, **iterable, regi, gri) && passes(regi, gri, regb, r));
                        }
                        return r;
                    }
                    proof {
                        assert forall|reg2: Register, r: Result<NaslValue, InterpretError>|
                            each_from(*statement, name@, all, i + 1, regb, reg2, r) implies each_from(
                            *statement,
                            name@,
                            all,
                            0,
                            regi,
                            reg2,
                            r,
                        ) by {
                            assert(binds_local(cur, regl, name@, ContextType::Value(all[i])) && passes(regb, grb, reg2, r));
                            assert(big(regl, **body, regb, grb));
                            assert(each_from(*statement, name@, all, i, cur, reg2, r));
                        }
                        i = i + 1;
                        assert(items@ =~= all.subrange(i, all.len() as int));
                    }
                }
                let r = Ok(NaslValue::Null);
                proof {
                    assert(i == all.len());
                    assert(each_from(*statement, name@, all, i, self.register, self.register, r));
                    assert(big(reg0, **iterable, regi, gri) && passes(regi, gri, self.register, r));
                }
                r
            },
            Statement::Call(_, _) => self.call(statement, depth),
            Statement::FunctionDeclaration(name, params, body) => {
                let key = match identifier(name) {
                    Ok(n) => n,
                    Err(e) => {
                        return Err(e);
                    },
                };
                let mut names: Vec<String> = Vec::new();
                let mut i: usize = 0;
                while i < params.len()
                    invariant
                        i <= params@.len(),
                        *statement == Statement::FunctionDeclaration(*name, *params, *body),
                        self.register.wf(),
                        self.steps == old(self).steps,
                        self.register == old(self).register,
                    decreases params@.len() - i,
                {
                    match identifier(&params[i]) {
                        Ok(n) => names.push(n.clone()),
                        Err(e) => {
                            return Err(e);
                        },
                    }
                    i = i + 1;
                }
                let copy = duplicate(body);
                let ghost slot = ContextType::Function(names, copy);
                proof {
                    crate::register::lemma_frames_nonempty(self.register);
                }
                self.register.add_local(key.as_str(), ContextType::Function(names, copy));
                proof {
                    assert(binds_local(reg0, self.register, key@, slot));
                }
                Ok(NaslValue::Null)
            },
            Statement::Return(value) => {
                let rx = self.eval(value, depth);
                let ghost grx = rx;
                let r = match rx {
                    Ok(v) => Ok(NaslValue::Return(Box::new(v))),
                    Err(e) => Err(e),
                };
                proof {
                    assert(big(reg0, **value, self.register, grx) && passes(self.register, grx, self.register, r));
                }
                r
            },
            Statement::Exit(code) => {
                let rx = self.eval(code, depth);
                let ghost grx = rx;
                let r = match rx {
                    Ok(v) => Ok(NaslValue::Exit(v.to_i64())),
                    Err(e) => Err(e),
                };
                proof {
                    assert(big(reg0, **code, self.register, grx) && passes(self.register, grx, self.register, r));
                }
                r
            },
            Statement::Declare(scope, names) => {
                let mut i: usize = 0;
                while i < names.len()
                    invariant
                        i <= names@.len(),
                        *statement == Statement::Declare(*scope, *names),
                        self.register.wf(),
                        self.steps <= old(self).steps,
                        reg0 == old(self).register,
                        forall|reg2: Register, r: Result<NaslValue, InterpretError>|
                            #![trigger declare_from(*statement, i as int, self.register, reg2, r)]
                            declare_from(*statement, i as int, self.register, reg2, r) ==> declare_from(
                                *statement,
                                0,
                                reg0,
                                reg2,
                                r,
                            ),
                    decreases names@.len() - i,
                {
                    let ghost cur = self.register;
                    let key = match identifier(&names[i]) {
                        Ok(n) => n,
                        Err(e) => {
                            let r = Err(e);
                            proof {
                                assert(declare_from(*statement, i as int, cur, cur, r));
                            }
                            return r;
                        },
                    };
                    proof {
                        crate::register::lemma_frames_nonempty(cur);
                    }
                    match scope {
                        DeclareScope::Local => self.register.add_local(
                            key.as_str(),
                            ContextType::Value(NaslValue::Null),
                        ),
                        DeclareScope::Global => self.register.add_global(
                            key.as_str(),
                            ContextType::Value(NaslValue::Null),
                        ),
                    }
                    proof {
                        let regl = self.register;
                        assert(declares(*scope, cur, regl, key@));
                        assert forall|reg2: Register, r: Result<NaslValue, InterpretError>|
                            declare_from(*statement, i + 1, regl, reg2, r) implies declare_from(
                            *statement,
                            0,
                            reg0,
                            reg2,
                            r,
                        ) by {
                            assert(declares(*scope, cur, regl, key@) && declare_from(*statement, i + 1, regl, reg2, r));
                            assert(declare_from(*statement, i as int, cur, reg2, r));
                        }
                    }
                    i = i + 1;
                }
                let r = Ok(NaslValue::Null);
                proof {
                    assert(declare_from(*statement, i as int, self.register, self.register, r));
                }
                r
            },
            Statement::AttackCategory(c) => Ok(NaslValue::AttackCategory(*c)),
            Statement::NoOp(_) | Statement::EoF => Ok(NaslValue::Null),
            Statement::Include(key) => self.run_inclusion(statement, key, depth),
            Statement::NamedParameter(_, _) => Err(InterpretError::Unsupported),
        }
    }

    fn assign(&mut self, statement: &Statement, depth: u64) -> (r: Result<NaslValue, InterpretError>)
        requires
            old(self).register.wf(),
            statement is Assign,
        ensures
            final(self).register.wf(),
            final(self).steps <= old(self).steps,
            assign_statement_result(*statement, r),
            assign_outcome(old(self).register, final(self).register, *statement, r),
            big(old(self).register, *statement, final(self).register, r),
        decreases depth, statement, 0nat,
    {
        let (op, order, left, right) = match statement {
            Statement::Assign(op, order, left, right) => (op, *order, left, right),
            _ => {
                return Err(InterpretError::InvalidTarget);
            },
        };
        proof {
            assert(decreases_to!(*statement => statement->Assign_2));
            assert(decreases_to!(*statement => statement->Assign_3));
        }
        let (token, index_statement) = match &**left {
            Statement::Variable(t) => (t, None),
            Statement::Array(t, i) => (t, i.as_ref()),
            _ => {
                return Err(InterpretError::InvalidTarget);
            },
        };
        let key = match identifier(token) {
            Ok(k) => k,
            Err(e) => {
                return Err(e);
            },
        };
        let ghost reg0 = self.register;
        let ghost iopt: Option<Box<Statement>> = if (**left) is Array {
            left->Array_1
        } else {
            None
        };
        let ghost pure_parts = pure_expr(**right) && match iopt {
            Some(x) => pure_expr(*x),
            None => true,
        };
        let mut gri: Ghost<Result<NaslValue, InterpretError>> = Ghost(Ok(NaslValue::Null));
        let ghost mut regi = self.register;
        let index = match index_statement {
            Some(i) => {
                proof {
                    assert(decreases_to!(**left => left->Array_1));
                    assert(decreases_to!(left->Array_1 => left->Array_1->Some_0));
                }
                let ri = self.eval(i, depth);
                gri = Ghost(ri);
                proof {
                    regi = self.register;
                }
                match ri {
                    Ok(v) => Some(v),
                    Err(e) => {
                        proof {
                            if pure_parts {
                                let rv = gri@;
                                assert(evaluates(reg0, **i, gri@) && propagates(gri@, gri@));
                                assert(propagates(gri@, gri@) && propagates(rv, gri@));
                            }
                            assert(big(reg0, **i, regi, gri@));
                            assert(passes(regi, gri@, regi, gri@) && passes(regi, gri@, regi, gri@));
                        }
                        return Err(e);
                    },
                }
            },
            None => None,
        };
        let rv = self.eval(right, depth);
        let ghost grv = rv;
        let ghost regv = self.register;
        let value = match rv {
            Ok(v) => v,
            Err(e) => {
                proof {
                    if index_statement is Some {
                        assert(big(reg0, *iopt->Some_0, regi, gri@));
                        assert(big(regi, **right, regv, grv));
                        assert(passes(regi, gri@, self.register, grv) && passes(regv, grv, self.register, grv));
                    } else {
                        assert(big(reg0, **right, regv, grv) && passes(regv, grv, self.register, grv));
                    }
                    if pure_parts {
                        assert(evaluates(reg0, **right, grv) && propagates(grv, grv));
                        assert(propagates(grv, grv));
                        if index_statement is Some {
                            assert(evaluates(reg0, *iopt->Some_0, gri@));
                            assert(propagates(gri@, grv) && propagates(grv, grv));
                        }
                    }
                }
                return Err(e);
            },
        };
        let (frame, current) = match self.lookup_value(key.as_str()) {
            Ok(x) => x,
            Err(e) => {
                let r = Err(e);
                proof {
                    assert(stores(regv, self.register, key@, index, *op, order, value, r));
                    if index_statement is Some {
                        assert(big(reg0, *iopt->Some_0, regi, gri@));
                        assert(big(regi, **right, regv, grv));
                        assert(passes(regi, gri@, self.register, r) && passes(regv, grv, self.register, r));
                    } else {
                        assert(big(reg0, **right, regv, grv) && passes(regv, grv, self.register, r));
                    }
                    if pure_parts {
                        assert(stores(reg0, self.register, key@, index, *op, order, value, r));
                        assert(evaluates(reg0, **right, grv) && propagates(grv, r));
                        if index_statement is Some {
                            assert(evaluates(reg0, *iopt->Some_0, gri@));
                            assert(propagates(gri@, r) && propagates(grv, r));
                        }
                    }
                }
                return r;
            },
        };
        let ghost (gc, gi, gv) = (current, index, value);
        match assign_value(op, order, current, index, value) {
            Ok(assigned) => {
                let ghost ga = assigned;
                self.register.add_to_index(frame, key.as_str(), ContextType::Value(assigned.stored));
                let r = Ok(assigned.returned);
                proof {
                    assert(assignment(*op, order, gc, gi, gv, Ok::<Assigned, InterpretError>(ga)));
                    assert(r == Ok::<NaslValue, InterpretError>(
                        Ok::<Assigned, InterpretError>(ga)->Ok_0.returned,
                    ));
                    assert(rebound(regv, self.register, target_frame(regv, key@), key@, ContextType::Value(ga.stored)));
                    assert(stores(regv, self.register, key@, gi, *op, order, gv, r));
                    if index_statement is Some {
                        assert(big(reg0, *iopt->Some_0, regi, gri@));
                        assert(big(regi, **right, regv, grv));
                        assert(passes(regi, gri@, self.register, r) && passes(regv, grv, self.register, r));
                    } else {
                        assert(big(reg0, **right, regv, grv) && passes(regv, grv, self.register, r));
                    }
                    if pure_parts {
                        assert(rebound(reg0, self.register, target_frame(reg0, key@), key@, ContextType::Value(ga.stored)));
                        assert(stores(reg0, self.register, key@, gi, *op, order, gv, r));
                        assert(evaluates(reg0, **right, grv) && propagates(grv, r));
                        if index_statement is Some {
                            assert(evaluates(reg0, *iopt->Some_0, gri@));
                            assert(propagates(gri@, r) && propagates(grv, r));
                        }
                    }
                }
                r
            },
            Err(e) => {
                let r = Err(e);
                proof {
                    assert(stores(regv, self.register, key@, gi, *op, order, gv, r));
                    if index_statement is Some {
                        assert(big(reg0, *iopt->Some_0, regi, gri@));
                        assert(big(regi, **right, regv, grv));
                        assert(passes(regi, gri@, self.register, r) && passes(regv, grv, self.register, r));
                    } else {
                        assert(big(reg0, **right, regv, grv) && passes(regv, grv, self.register, r));
                    }
                    if pure_parts {
                        assert(stores(reg0, self.register, key@, gi, *op, order, gv, r));
                        assert(evaluates(reg0, **right, grv) && propagates(grv, r));
                        if index_statement is Some {
                            assert(evaluates(reg0, *iopt->Some_0, gri@));
                            assert(propagates(gri@, r) && propagates(grv, r));
                        }
                    }
                }
                r
            },
        }
    }

    fn call_builtin(
        &mut self,
        fname: &String,
        positional: Vec<NaslValue>,
        named: Vec<(String, NaslValue)>,
    ) -> (r: Result<NaslValue, InterpretError>)
        requires
            old(self).register.wf(),
        ensures
            final(self).register.wf(),
            final(self).steps == old(self).steps,
    {
        if !self.builtins.nasl_fn_defined(fname.as_str()) {
            return Err(InterpretError::UnknownFunction(fname.clone()));
        }
        self.register.create_child();
        self.register.add_local("_FCT_ANON_ARGS", ContextType::Value(NaslValue::Array(positional)));
        let mut named = named;
        while named.len() > 0
            invariant
                self.register.wf(),
                self.steps == old(self).steps,
            decreases named@.len(),
        {
            let (key, value) = named.remove(0);
            self.register.add_local(key.as_str(), ContextType::Value(value));
        }
        let result = self.builtins.nasl_fn_execute(fname.as_str(), &self.register);
        self.register.drop_frame();
        match result {
            Some(Ok(v)) => Ok(v),
            Some(Err(e)) => Err(InterpretError::Function(e)),
            None => Err(InterpretError::UnknownFunction(fname.clone())),
        }
    }

    fn call(&mut self, statement: &Statement, depth: u64) -> (r: Result<NaslValue, InterpretError>)
        requires
            old(self).register.wf(),
            statement is Call,
        ensures
            final(self).register.wf(),
            final(self).steps <= old(self).steps,
        decreases depth, statement, 0nat,
    {
        let (name, arguments) = match statement {
            Statement::Call(name, arguments) => (name, arguments),
            _ => {
                return Err(InterpretError::Unsupported);
            },
        };
        let fname = match identifier(name) {
            Ok(n) => n,
            Err(e) => {
                return Err(e);
            },
        };
        let items = match &**arguments {
            Statement::Parameter(items) => items,
            _ => {
                return Err(InterpretError::Unsupported);
            },
        };
        let mut positional: Vec<NaslValue> = Vec::new();
        let mut named: Vec<(String, NaslValue)> = Vec::new();
        let mut i: usize = 0;
        while i < items.len()
            invariant
                i <= items@.len(),
                *statement == Statement::Call(*name, *arguments),
                **arguments == Statement::Parameter(*items),
                self.register.wf(),
                self.steps <= old(self).steps,
            decreases items@.len() - i,
        {
            proof {
                assert(decreases_to!(*statement => statement->Call_1));
                assert(decreases_to!(**arguments => arguments->Parameter_0));
                assert(decreases_to!(*items => items@));
                assert(decreases_to!(items@ => items@[i as int]));
            }
            match &items[i] {
                Statement::NamedParameter(n, e) => {
                    proof {
                        assert(decreases_to!(items@[i as int] => items@[i as int]->NamedParameter_1));
                    }
                    let key = match identifier(n) {
                        Ok(k) => k.clone(),
                        Err(e) => {
                            return Err(e);
                        },
                    };
                    match self.eval(e, depth) {
                        Ok(v) => named.push((key, v)),
                        Err(err) => {
                            return Err(err);
                        },
                    }
                },
                other => match self.eval(other, depth) {
                    Ok(v) => positional.push(v),
                    Err(e) => {
                        return Err(e);
                    },
                },
            }
            i = i + 1;
        }
        let (params, body) = match self.register.named(fname.as_str()) {
            Some(ContextType::Function(ps, b)) => {
                let mut copy: Vec<String> = Vec::new();
                let mut k: usize = 0;
                while k < ps.len()
                    invariant
                        k <= ps@.len(),
                    decreases ps@.len() - k,
                {
                    copy.push(ps[k].clone());
                    k = k + 1;
                }
                (copy, duplicate(b))
            },
            _ => {
                return self.call_builtin(fname, positional, named);
            },
        };
        if depth == 0 {
            return Err(InterpretError::StepLimit);
        }
        self.register.create_child();
        let mut k: usize = 0;
        while k < params.len()
            invariant
                k <= params@.len(),
                self.register.wf(),
                self.steps <= old(self).steps,
            decreases params@.len() - k,
        {
            let value = if positional.len() > 0 {
                positional.remove(0)
            } else {
                NaslValue::Null
            };
            self.register.add_local(params[k].as_str(), ContextType::Value(value));
            k = k + 1;
        }
        while named.len() > 0
            invariant
                self.register.wf(),
                self.steps <= old(self).steps,
            decreases named@.len(),
        {
            let (key, value) = named.remove(0);
            self.register.add_local(key.as_str(), ContextType::Value(value));
        }
        let result = self.eval(&body, depth - 1);
        self.register.drop_frame();
        match result {
            Ok(NaslValue::Return(v)) => Ok(*v),
            Ok(NaslValue::Exit(code)) => Ok(NaslValue::Exit(code)),
            Ok(_) => Ok(NaslValue::Null),
            Err(e) => Err(e),
        }
    }
}

/// Reads element `idx` of `current`, the value of variable `name`: an array by
/// position, `Null` past its end; a dictionary by key, `Null` for a missing key.
pub fn read_element(current: NaslValue, idx: NaslValue, name: &String) -> (r: Result<
    NaslValue,
    InterpretError,
>)
    ensures
        current is Array ==> r is Ok && r->Ok_0 == (if 0 <= int_of(idx) < current->Array_0@.len() {
            current->Array_0@[int_of(idx) as int]
        } else {
            NaslValue::Null
        }),
        current is Dict ==> r is Ok && r->Ok_0 == entry_value(
            entries_view(current->Dict_0@),
            text_of(idx),
        ),
        !(current is Array || current is Dict) ==> r == Err::<NaslValue, InterpretError>(
            InterpretError::NotIndexable(*name),
        ),
        element_result(current, idx, r),
{
    match current {
        NaslValue::Array(x) => {
            let i = idx.to_i64();
            if 0 <= i && (i as u64) < (x.len() as u64) {
                let mut x = x;
                Ok(x.remove(i as usize))
            } else {
                Ok(NaslValue::Null)
            }
        },
        NaslValue::Dict(d) => {
            let key = idx.to_text();
            match crate::assign::entry_index_exec(&d, key.as_str()) {
                Some(j) => {
                    proof {
                        crate::assign::lemma_entry_index_bounds(entries_view(d@), key@, 0);
                    }
                    let mut d = d;
                    let (_, v) = d.remove(j);
                    Ok(v)
                },
                None => Ok(NaslValue::Null),
            }
        },
        _ => Err(InterpretError::NotIndexable(name.clone())),
    }
}


/// Evaluates parsed top-level statements in order over one register, with
/// `builtins` for calls and `sources` for inclusions: one result per statement; a statement that did not
/// parse gives `Syntax`.
pub fn run_statements<E: FunctionExecuter>(
    statements: &Vec<Result<Statement, crate::parser::SyntaxError>>,
    builtins: E,
    sources: Vec<(String, String)>,
) -> (r: Vec<
    Result<NaslValue, InterpretError>,
>)
    ensures
        r@.len() == statements@.len(),
        forall|i: int|
            0 <= i < r@.len() ==> (statements@[i] is Err ==> r@[i] == Err::<
                NaslValue,
                InterpretError,
            >(InterpretError::Syntax)),
        forall|i: int|
            0 <= i < r@.len() ==> (statements@[i] is Ok && statements@[i]->Ok_0 is NoOp ==> r@[i]
                == Ok::<NaslValue, InterpretError>(NaslValue::Null)),
        run_outcome(statements@, r@),
{
    let mut interpreter = Interpreter::with_sources(builtins, sources);
    let ghost mut regs: Seq<Register> = seq![interpreter.variables()];
    let mut out: Vec<Result<NaslValue, InterpretError>> = Vec::new();
    let mut i: usize = 0;
    while i < statements.len()
        invariant
            i <= statements@.len(),
            out@.len() == i,
            interpreter.wf(),
            forall|k: int|
                0 <= k < i ==> (statements@[k] is Err ==> out@[k] == Err::<
                    NaslValue,
                    InterpretError,
                >(InterpretError::Syntax)),
            forall|k: int|
                0 <= k < i ==> (statements@[k] is Ok && statements@[k]->Ok_0 is NoOp ==> out@[k]
                    == Ok::<NaslValue, InterpretError>(NaslValue::Null)),
            regs.len() == i + 1,
            regs[0].frames() == seq![Seq::<(String, ContextType)>::empty()],
            regs.last() == interpreter.variables(),
            forall|k: int|
                #![trigger out@[k]]
                0 <= k < i ==> (statements@[k] is Err ==> out@[k] == Err::<
                    NaslValue,
                    InterpretError,
                >(InterpretError::Syntax) && regs[k + 1] == regs[k]) && (statements@[k] is Ok
                    ==> step_outcome(regs[k], regs[k + 1], statements@[k]->Ok_0, out@[k])),
        decreases statements@.len() - i,
    {
        let ghost before = out@;
        let ghost regs_before = regs;
        match &statements[i] {
            Ok(s) => {
                let v = interpreter.resolve(s);
                out.push(v);
            },
            Err(_) => out.push(Err(InterpretError::Syntax)),
        }
        proof {
            regs = regs.push(interpreter.variables());
            assert forall|k: int| #![trigger out@[k]] 0 <= k < i + 1 implies (statements@[k] is Err
                ==> out@[k] == Err::<NaslValue, InterpretError>(InterpretError::Syntax) && regs[k + 1]
                == regs[k]) && (statements@[k] is Ok ==> step_outcome(
                regs[k],
                regs[k + 1],
                statements@[k]->Ok_0,
                out@[k],
            )) by {
                if k < i {
                    assert(out@[k] == before[k]);
                    assert(regs[k] == regs_before[k] && regs[k + 1] == regs_before[k + 1]);
                }
            }
        }
        i = i + 1;
    }
    proof {
        assert(regs.len() == out@.len() + 1);
    }
    out
}

/// Parses `code` and evaluates its top-level statements without built-in
/// functions or sources to include, see `run_statements`.
pub fn run(code: &str) -> (r: Vec<Result<NaslValue, InterpretError>>)
    ensures
        exists|statements: Seq<Result<Statement, crate::parser::SyntaxError>>, toks: Seq<Token>, end: int|
            crate::parser::significant_of(code.spec_bytes(), toks) && crate::parser::parsed_between(
                toks,
                0,
                statements,
                end,
            ) && end >= toks.len() && run_outcome(statements, r@),
{
    let statements = crate::parser::parse(code);
    let r = run_statements(&statements, NoBuiltins, Vec::new());
    proof {
        let (toks, end) = choose|toks: Seq<Token>, end: int|
            crate::parser::parsed_between(toks, 0, statements@, end) && end >= toks.len()
                && crate::parser::significant_of(code.spec_bytes(), toks) && forall|i: int|
                0 <= i < toks.len() ==> toks[i].category != Category::Comment;
        assert(crate::parser::significant_of(code.spec_bytes(), toks)
            && crate::parser::parsed_between(toks, 0, statements@, end) && end >= toks.len()
            && run_outcome(statements@, r@));
    }
    r
}

} // verus!
