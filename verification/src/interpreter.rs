use vstd::prelude::*;
use crate::node::{Node, NodeView};
use crate::object::{
    float_lookup, Fatal, FatalView, FloatAns, FloatAnsView, FloatOp, FloatOpView, FloatTable,
    Object, ObjectView,
};
use crate::scope::{lookup_binding, Scope};
use crate::token::is_digit_char;
use vstd::string::StringExecFns;

verus! {

/// The model of the interpreter's shared state: the read-only natives, the
/// arena of class and instance field maps, the text printed so far, and
/// the recorded floating-point answers.
pub struct EnvView {
    pub natives: Seq<(Seq<char>, ObjectView)>,
    pub arena: Seq<Seq<(Seq<char>, ObjectView)>>,
    pub output: Seq<Seq<char>>,
    pub floats: Seq<(FloatOpView, FloatAnsView)>,
}

/// The outcome of evaluating one node: the state afterwards and the value
/// or fatal error.
pub struct EvalOut {
    pub env: EnvView,
    pub scope: Seq<(Seq<char>, ObjectView)>,
    pub res: Result<ObjectView, FatalView>,
}

/// The outcome of evaluating a list of argument expressions.
pub struct ArgsOut {
    pub env: EnvView,
    pub scope: Seq<(Seq<char>, ObjectView)>,
    pub res: Result<Seq<ObjectView>, FatalView>,
}

/// Whether every character of `s` is a decimal digit.
pub open spec fn is_digit_seq(s: Seq<char>) -> bool {
    forall|i: int| 0 <= i < s.len() ==> is_digit_char(#[trigger] s[i])
}

/// The numeric value of one decimal digit.
pub open spec fn digit_val(c: char) -> int {
    c as int - '0' as int
}

/// The value of a run of decimal digits.
pub open spec fn digits_value(s: Seq<char>) -> int
    decreases s.len(),
{
    if s.len() == 0 {
        0
    } else {
        digits_value(s.drop_last()) * 10 + digit_val(s.last())
    }
}

/// What a number literal without a period evaluates to: its integer
/// value, or a fatal error when the text is not a plain run of digits or
/// its value does not fit a 64-bit signed integer.
pub open spec fn eval_int_literal(s: Seq<char>) -> Result<ObjectView, FatalView> {
    if s.len() > 0 && is_digit_seq(s) && digits_value(s) <= i64::MAX {
        Ok(ObjectView::Integer(digits_value(s) as i64))
    } else {
        Err(FatalView::BadNumberLiteral(s))
    }
}

/// The decimal digit characters of `n`, for `n >= 0`.
pub open spec fn dec_digits(n: int) -> Seq<char>
    decreases n,
{
    if n <= 9 {
        seq![digit_char_of(if n < 0 { 0 } else { n })]
    } else {
        dec_digits(n / 10).push(digit_char_of(n % 10))
    }
}

/// The character for one decimal digit.
pub open spec fn digit_char_of(d: int) -> char {
    if d == 0 {
        '0'
    } else if d == 1 {
        '1'
    } else if d == 2 {
        '2'
    } else if d == 3 {
        '3'
    } else if d == 4 {
        '4'
    } else if d == 5 {
        '5'
    } else if d == 6 {
        '6'
    } else if d == 7 {
        '7'
    } else if d == 8 {
        '8'
    } else {
        '9'
    }
}

/// The decimal rendering of an integer, with a leading minus sign when
/// negative.
pub open spec fn render_int(i: int) -> Seq<char> {
    if i < 0 {
        seq!['-'] + dec_digits(-i)
    } else {
        dec_digits(i)
    }
}

/// The variant names joined by a comma and a space.
pub open spec fn join_names(vs: Seq<Seq<char>>) -> Seq<char>
    decreases vs.len(),
{
    if vs.len() == 0 {
        Seq::empty()
    } else if vs.len() == 1 {
        vs.first()
    } else {
        vs.first() + seq![',', ' '] + join_names(vs.drop_first())
    }
}

/// The text an object prints as: integers and floats as their decimal
/// value (a float's rendering is read from the recorded answers), strings
/// raw, `None` as the fixed literal `None`, an enum as its name followed
/// by its bracketed variant list, an enum variant as its qualified name,
/// an error as its message after `Error: `, and the remaining kinds as
/// the fixed forms `[native code]`, `function`, `class` and `instance`.
pub open spec fn render_object(o: ObjectView, floats: Seq<(FloatOpView, FloatAnsView)>) -> Result<
    Seq<char>,
    FatalView,
> {
    match o {
        ObjectView::Nil => Ok("None"@),
        ObjectView::Integer(i) => Ok(render_int(i as int)),
        ObjectView::Float(b) => match float_lookup(floats, FloatOpView::Print(b)) {
            Some(FloatAnsView::Text(s)) => Ok(s),
            _ => Err(FatalView::FloatUnavailable(FloatOpView::Print(b))),
        },
        ObjectView::Str(s) => Ok(s),
        ObjectView::Error(m) => Ok("Error: "@ + m),
        ObjectView::Native(_, _) => Ok("[native code]"@),
        ObjectView::Function(_, _) => Ok("function"@),
        ObjectView::BoundFunction(_, _) => Ok("function"@),
        ObjectView::Enum(name, vs) => Ok(name + seq!['['] + join_names(vs) + seq![']']),
        ObjectView::EnumVariant(e, v) => Ok(e + seq!['.'] + v),
        ObjectView::Class(_) => Ok("class"@),
        ObjectView::Instance(_) => Ok("instance"@),
    }
}

/// The renderings of each argument, in order.
pub open spec fn render_all(
    vals: Seq<ObjectView>,
    floats: Seq<(FloatOpView, FloatAnsView)>,
) -> Result<Seq<Seq<char>>, FatalView>
    decreases vals.len(),
{
    if vals.len() == 0 {
        Ok(Seq::empty())
    } else {
        match render_object(vals.first(), floats) {
            Ok(line) => match render_all(vals.drop_first(), floats) {
                Ok(rest) => Ok(seq![line] + rest),
                Err(e) => Err(e),
            },
            Err(e) => Err(e),
        }
    }
}

/// Pattern-match equality: defined only between two enum variants, which
/// are equal when their qualified names are; every other pair is unequal.
pub open spec fn objects_match(a: ObjectView, b: ObjectView) -> bool {
    match (a, b) {
        (ObjectView::EnumVariant(e1, v1), ObjectView::EnumVariant(e2, v2)) => e1 == e2 && v1
            == v2,
        _ => false,
    }
}

/// One of the five arithmetic operations.
#[derive(Clone, Copy, Debug)]
pub enum ArithOp {
    Add,
    Sub,
    Mul,
    Div,
    Rem,
}

/// Integer arithmetic: addition, subtraction and multiplication overflow
/// fatally outside the 64-bit signed range; division and remainder are
/// the truncating forms and fail fatally on a zero divisor or on the one
/// overflowing quotient.
pub open spec fn int_arith(op: ArithOp, x: i64, y: i64) -> Result<ObjectView, FatalView> {
    match op {
        ArithOp::Add => match x.checked_add(y) {
            Some(v) => Ok(ObjectView::Integer(v)),
            None => Err(FatalView::ArithmeticOverflow),
        },
        ArithOp::Sub => match x.checked_sub(y) {
            Some(v) => Ok(ObjectView::Integer(v)),
            None => Err(FatalView::ArithmeticOverflow),
        },
        ArithOp::Mul => match x.checked_mul(y) {
            Some(v) => Ok(ObjectView::Integer(v)),
            None => Err(FatalView::ArithmeticOverflow),
        },
        ArithOp::Div => if y == 0 {
            Err(FatalView::DivisionByZero)
        } else {
            match x.checked_div(y) {
                Some(v) => Ok(ObjectView::Integer(v)),
                None => Err(FatalView::ArithmeticOverflow),
            }
        },
        ArithOp::Rem => if y == 0 {
            Err(FatalView::DivisionByZero)
        } else {
            match x.checked_rem(y) {
                Some(v) => Ok(ObjectView::Integer(v)),
                None => Err(FatalView::ArithmeticOverflow),
            }
        },
    }
}

/// The floating-point operation record for an arithmetic step.
pub open spec fn float_op_of(op: ArithOp, a: u64, b: u64) -> FloatOpView {
    match op {
        ArithOp::Add => FloatOpView::Add(a, b),
        ArithOp::Sub => FloatOpView::Sub(a, b),
        ArithOp::Mul => FloatOpView::Mul(a, b),
        ArithOp::Div => FloatOpView::Div(a, b),
        ArithOp::Rem => FloatOpView::Rem(a, b),
    }
}

/// Floating-point arithmetic: the result bit pattern recorded for the
/// operand patterns, or a fatal error when no answer is recorded.
pub open spec fn float_arith(
    op: ArithOp,
    a: u64,
    b: u64,
    floats: Seq<(FloatOpView, FloatAnsView)>,
) -> Result<ObjectView, FatalView> {
    match float_lookup(floats, float_op_of(op, a, b)) {
        Some(FloatAnsView::Bits(r)) => Ok(ObjectView::Float(r)),
        _ => Err(FatalView::FloatUnavailable(float_op_of(op, a, b))),
    }
}

/// The bit pattern of a numeric operand: a float's own pattern, or the
/// recorded conversion of an integer.
pub open spec fn promote(o: ObjectView, floats: Seq<(FloatOpView, FloatAnsView)>) -> Result<
    u64,
    FatalView,
> {
    match o {
        ObjectView::Float(b) => Ok(b),
        ObjectView::Integer(i) => match float_lookup(floats, FloatOpView::FromInt(i)) {
            Some(FloatAnsView::Bits(b)) => Ok(b),
            _ => Err(FatalView::FloatUnavailable(FloatOpView::FromInt(i))),
        },
        _ => Err(FatalView::NotNumeric),
    }
}

/// Numeric arithmetic with promotion: two integers give an integer; any
/// float operand promotes the other operand and the result to floats; a
/// non-numeric operand is a fatal type error.
pub open spec fn arith_result(
    op: ArithOp,
    x: ObjectView,
    y: ObjectView,
    floats: Seq<(FloatOpView, FloatAnsView)>,
) -> Result<ObjectView, FatalView> {
    match (x, y) {
        (ObjectView::Integer(a), ObjectView::Integer(b)) => int_arith(op, a, b),
        (ObjectView::Integer(_), ObjectView::Float(_)) => mixed_arith(op, x, y, floats),
        (ObjectView::Float(_), ObjectView::Integer(_)) => mixed_arith(op, x, y, floats),
        (ObjectView::Float(_), ObjectView::Float(_)) => mixed_arith(op, x, y, floats),
        _ => Err(FatalView::NotNumeric),
    }
}

/// Arithmetic once at least one operand is a float: promote the left
/// operand, then the right, then apply the recorded operation.
pub open spec fn mixed_arith(
    op: ArithOp,
    x: ObjectView,
    y: ObjectView,
    floats: Seq<(FloatOpView, FloatAnsView)>,
) -> Result<ObjectView, FatalView> {
    match promote(x, floats) {
        Ok(a) => match promote(y, floats) {
            Ok(b) => float_arith(op, a, b, floats),
            Err(e) => Err(e),
        },
        Err(e) => Err(e),
    }
}

/// The fresh bindings of a function call: the i-th parameter (which must
/// be an identifier) is bound to the i-th argument, a missing trailing
/// argument to `None`; extra arguments are ignored.
pub open spec fn bind_params(params: Seq<NodeView>, args: Seq<ObjectView>) -> Result<
    Seq<(Seq<char>, ObjectView)>,
    FatalView,
>
    decreases params.len(),
{
    if params.len() == 0 {
        Ok(Seq::empty())
    } else {
        match params.last() {
            NodeView::Identifier(nm) => match bind_params(params.drop_last(), args) {
                Ok(b) => Ok(
                    b.push(
                        (
                            nm,
                            if params.len() - 1 < args.len() {
                                args[params.len() - 1]
                            } else {
                                ObjectView::Nil
                            },
                        ),
                    ),
                ),
                Err(e) => Err(e),
            },
            _ => Err(FatalView::BadParameter),
        }
    }
}

/// The variant names of an enum definition, each of which must be an
/// identifier.
pub open spec fn idents_of(ns: Seq<NodeView>) -> Option<Seq<Seq<char>>>
    decreases ns.len(),
{
    if ns.len() == 0 {
        Some(Seq::empty())
    } else {
        match ns.first() {
            NodeView::Identifier(nm) => match idents_of(ns.drop_first()) {
                Some(rest) => Some(seq![nm] + rest),
                None => None,
            },
            _ => None,
        }
    }
}

/// The message of the error value produced by looking up a variant that
/// an enum does not have.
pub open spec fn variant_error_msg(variant: Seq<char>, ename: Seq<char>) -> Seq<char> {
    "Variant "@ + variant + " does not exist for enum "@ + ename
}

/// Member lookup on an object. On an enum, a known variant name gives the
/// variant value and an unknown one gives a recoverable error value. On a
/// class or instance, the field map decides; a function field is wrapped
/// into a bound function pairing it with its receiver; a missing field is
/// fatal. Everything else has no members.
pub open spec fn member_get(o: ObjectView, field: Seq<char>, env: EnvView) -> Result<
    ObjectView,
    FatalView,
> {
    match o {
        ObjectView::Enum(ename, vs) => if vs.contains(field) {
            Ok(ObjectView::EnumVariant(ename, field))
        } else {
            Ok(ObjectView::Error(variant_error_msg(field, ename)))
        },
        ObjectView::Class(h) => if 0 <= h < env.arena.len() {
            match lookup_binding(env.arena[h], field) {
                None => Err(FatalView::UnknownField(field)),
                Some(f) => if f is Function {
                    Ok(ObjectView::BoundFunction(Box::new(o), Box::new(f)))
                } else {
                    Ok(f)
                },
            }
        } else {
            Err(FatalView::Unevaluable)
        },
        ObjectView::Instance(h) => if 0 <= h < env.arena.len() {
            match lookup_binding(env.arena[h], field) {
                None => Err(FatalView::UnknownField(field)),
                Some(f) => if f is Function {
                    Ok(ObjectView::BoundFunction(Box::new(o), Box::new(f)))
                } else {
                    Ok(f)
                },
            }
        } else {
            Err(FatalView::Unevaluable)
        },
        _ => Err(FatalView::BadMemberAccess),
    }
}

/// The bindings of a class-body scope that become class fields: every
/// binding except those of `self`.
pub open spec fn non_self_bindings(b: Seq<(Seq<char>, ObjectView)>) -> Seq<
    (Seq<char>, ObjectView),
>
    decreases b.len(),
{
    if b.len() == 0 {
        Seq::empty()
    } else if b.last().0 == "self"@ {
        non_self_bindings(b.drop_last())
    } else {
        non_self_bindings(b.drop_last()).push(b.last())
    }
}

/// The outcome when the arena cannot grow by two more field maps; no
/// real evaluation reaches this.
pub open spec fn arena_full(env: EnvView, scope: Seq<(Seq<char>, ObjectView)>) -> EvalOut {
    EvalOut { env, scope, res: Err(FatalView::Unevaluable) }
}

/// The evaluation of one node against a scope: a strict, eager
/// tree-walk. `fuel` bounds the depth of function-call dispatch; every
/// other recursion is structural. The environment threads through the
/// evaluation; the scope holds the call frame's bindings.
pub open spec fn eval_node(
    fuel: nat,
    n: NodeView,
    env: EnvView,
    scope: Seq<(Seq<char>, ObjectView)>,
) -> EvalOut
    decreases fuel, n, 2nat,
{
    match n {
        NodeView::Program(stmts) => eval_stmts(fuel, stmts, env, scope, ObjectView::Nil),
        NodeView::Number(s) => EvalOut {
            env,
            scope,
            res: if s.contains('.') {
                match float_lookup(env.floats, FloatOpView::Parse(s)) {
                    Some(FloatAnsView::Bits(b)) => Ok(ObjectView::Float(b)),
                    Some(_) => Err(FatalView::BadNumberLiteral(s)),
                    None => Err(FatalView::FloatUnavailable(FloatOpView::Parse(s))),
                }
            } else {
                eval_int_literal(s)
            },
        },
        NodeView::Identifier(name) => EvalOut {
            env,
            scope,
            res: match lookup_binding(scope, name) {
                Some(o) => Ok(o),
                None => match lookup_binding(env.natives, name) {
                    Some(o) => Ok(o),
                    None => Err(FatalView::UnknownIdentifier(name)),
                },
            },
        },
        NodeView::Literal(s, _d) => EvalOut { env, scope, res: Ok(ObjectView::Str(s)) },
        NodeView::Assignment(target, value) => match *target {
            NodeView::Identifier(nm) => {
                let ev = eval_node(fuel, *value, env, scope);
                match ev.res {
                    Ok(v) => EvalOut {
                        env: ev.env,
                        scope: ev.scope.push((nm, v)),
                        res: Ok(ObjectView::Nil),
                    },
                    Err(e) => ev,
                }
            },
            NodeView::Member(objexpr, field) => {
                let ev1 = eval_node(fuel, *objexpr, env, scope);
                match ev1.res {
                    Ok(o) => {
                        let ev2 = eval_node(fuel, *value, ev1.env, ev1.scope);
                        match ev2.res {
                            Ok(v) => match o {
                                ObjectView::Class(h) => if 0 <= h < ev2.env.arena.len() {
                                    EvalOut {
                                        env: EnvView {
                                            arena: ev2.env.arena.update(
                                                h,
                                                ev2.env.arena[h].push((field, v)),
                                            ),
                                            ..ev2.env
                                        },
                                        scope: ev2.scope,
                                        res: Ok(ObjectView::Nil),
                                    }
                                } else {
                                    EvalOut {
                                        env: ev2.env,
                                        scope: ev2.scope,
                                        res: Err(FatalView::Unevaluable),
                                    }
                                },
                                ObjectView::Instance(h) => if 0 <= h < ev2.env.arena.len() {
                                    EvalOut {
                                        env: EnvView {
                                            arena: ev2.env.arena.update(
                                                h,
                                                ev2.env.arena[h].push((field, v)),
                                            ),
                                            ..ev2.env
                                        },
                                        scope: ev2.scope,
                                        res: Ok(ObjectView::Nil),
                                    }
                                } else {
                                    EvalOut {
                                        env: ev2.env,
                                        scope: ev2.scope,
                                        res: Err(FatalView::Unevaluable),
                                    }
                                },
                                _ => EvalOut {
                                    env: ev2.env,
                                    scope: ev2.scope,
                                    res: Err(FatalView::BadAssignmentTarget),
                                },
                            },
                            Err(e) => ev2,
                        }
                    },
                    Err(e) => ev1,
                }
            },
            _ => EvalOut { env, scope, res: Err(FatalView::BadAssignmentTarget) },
        },
        NodeView::Addition(_l, _r) => eval_arith(fuel, ArithOp::Add, n, env, scope),
        NodeView::Substraction(_l, _r) => eval_arith(fuel, ArithOp::Sub, n, env, scope),
        NodeView::Multiplication(_l, _r) => eval_arith(fuel, ArithOp::Mul, n, env, scope),
        NodeView::Division(_l, _r) => eval_arith(fuel, ArithOp::Div, n, env, scope),
        NodeView::Modulus(_l, _r) => eval_arith(fuel, ArithOp::Rem, n, env, scope),
        NodeView::FunctionDefinition(params, body) => EvalOut {
            env,
            scope,
            res: Ok(ObjectView::Function(params, body)),
        },
        NodeView::Parenthesized(inner) => eval_node(fuel, *inner, env, scope),
        NodeView::Call(callee, args) => {
            let ev1 = eval_node(fuel, *callee, env, scope);
            match ev1.res {
                Ok(c) => {
                    let ea = eval_args(fuel, args, ev1.env, ev1.scope);
                    match ea.res {
                        Ok(vals) => if fuel == 0 {
                            EvalOut {
                                env: ea.env,
                                scope: ea.scope,
                                res: Err(FatalView::OutOfFuel),
                            }
                        } else {
                            let (env2, res) = eval_call(
                                (fuel - 1) as nat,
                                c,
                                vals,
                                ObjectView::Nil,
                                ea.env,
                            );
                            EvalOut { env: env2, scope: ea.scope, res }
                        },
                        Err(e) => EvalOut { env: ea.env, scope: ea.scope, res: Err(e) },
                    }
                },
                Err(e) => ev1,
            }
        },
        NodeView::Member(objexpr, field) => {
            let ev = eval_node(fuel, *objexpr, env, scope);
            match ev.res {
                Ok(o) => EvalOut {
                    env: ev.env,
                    scope: ev.scope,
                    res: member_get(o, field, ev.env),
                },
                Err(e) => ev,
            }
        },
        NodeView::Match(subject, arms) => {
            let ev = eval_node(fuel, *subject, env, scope);
            match ev.res {
                Ok(s) => eval_arms(fuel, s, arms, ev.env, ev.scope),
                Err(e) => ev,
            }
        },
        NodeView::ClassDefinition(name_node, body) => match *name_node {
            NodeView::Identifier(cname) => {
                let sh = env.arena.len();
                let env1 = EnvView { arena: env.arena.push(Seq::empty()), ..env };
                let seeded = seq![("self"@, ObjectView::Instance(sh as int))];
                let ev = eval_node(fuel, *body, env1, seeded);
                match ev.res {
                    Ok(_) => {
                        let proto_base = match lookup_binding(ev.scope, "self"@) {
                            Some(ObjectView::Instance(ih)) => if 0 <= ih < ev.env.arena.len() {
                                ev.env.arena[ih]
                            } else {
                                Seq::empty()
                            },
                            _ => Seq::empty(),
                        };
                        let ph = ev.env.arena.len();
                        let ch = ph + 1;
                        let proto = proto_base.push(("$class"@, ObjectView::Class(ch as int)));
                        if ph >= usize::MAX {
                            arena_full(ev.env, scope)
                        } else {
                        let class_fields = non_self_bindings(ev.scope).push(
                            ("$prototype"@, ObjectView::Instance(ph as int)),
                        );
                        EvalOut {
                            env: EnvView {
                                arena: ev.env.arena.push(proto).push(class_fields),
                                ..ev.env
                            },
                            scope: scope.push((cname, ObjectView::Class(ch as int))),
                            res: Ok(ObjectView::Nil),
                        }
                        }
                    },
                    Err(e) => EvalOut { env: ev.env, scope, res: Err(e) },
                }
            },
            _ => EvalOut { env, scope, res: Ok(ObjectView::Nil) },
        },
        NodeView::EnumDefinition(name_node, variants) => match *name_node {
            NodeView::Identifier(ename) => match idents_of(variants) {
                Some(names) => EvalOut {
                    env,
                    scope: scope.push((ename, ObjectView::Enum(ename, names))),
                    res: Ok(ObjectView::Nil),
                },
                None => EvalOut { env, scope, res: Err(FatalView::Unevaluable) },
            },
            _ => EvalOut { env, scope, res: Ok(ObjectView::Nil) },
        },
        _ => EvalOut { env, scope, res: Err(FatalView::Unevaluable) },
    }
}

/// The evaluation of a binary arithmetic node: left operand, then right,
/// then the numeric rules with promotion.
pub open spec fn eval_arith(
    fuel: nat,
    op: ArithOp,
    n: NodeView,
    env: EnvView,
    scope: Seq<(Seq<char>, ObjectView)>,
) -> EvalOut
    decreases fuel, n, 1nat,
{
    match n {
        NodeView::Addition(lb, rb)
        | NodeView::Substraction(lb, rb)
        | NodeView::Multiplication(lb, rb)
        | NodeView::Division(lb, rb)
        | NodeView::Modulus(lb, rb) => eval_arith_sides(fuel, op, *lb, *rb, n, env, scope),
        _ => EvalOut { env, scope, res: Err(FatalView::Unevaluable) },
    }
}

/// The two operand evaluations of an arithmetic node.
pub open spec fn eval_arith_sides(
    fuel: nat,
    op: ArithOp,
    l: NodeView,
    r: NodeView,
    n: NodeView,
    env: EnvView,
    scope: Seq<(Seq<char>, ObjectView)>,
) -> EvalOut
    decreases fuel, n, 0nat,
    when decreases_to!(n => l) && decreases_to!(n => r)
{
    let ev1 = eval_node(fuel, l, env, scope);
    match ev1.res {
        Ok(x) => {
            let ev2 = eval_node(fuel, r, ev1.env, ev1.scope);
            match ev2.res {
                Ok(y) => EvalOut {
                    env: ev2.env,
                    scope: ev2.scope,
                    res: arith_result(op, x, y, ev2.env.floats),
                },
                Err(e) => ev2,
            }
        },
        Err(e) => ev1,
    }
}

/// The evaluation of statements in order: the result is the last
/// statement's value, or `acc` (the default `None` at the start) when
/// none remain; a fatal error stops the walk.
pub open spec fn eval_stmts(
    fuel: nat,
    ns: Seq<NodeView>,
    env: EnvView,
    scope: Seq<(Seq<char>, ObjectView)>,
    acc: ObjectView,
) -> EvalOut
    decreases fuel, ns, 2nat,
{
    if ns.len() == 0 {
        EvalOut { env, scope, res: Ok(acc) }
    } else {
        let ev = eval_node(fuel, ns.first(), env, scope);
        match ev.res {
            Ok(v) => eval_stmts(fuel, ns.drop_first(), ev.env, ev.scope, v),
            Err(e) => ev,
        }
    }
}

/// The evaluation of call arguments, left to right.
pub open spec fn eval_args(
    fuel: nat,
    ns: Seq<NodeView>,
    env: EnvView,
    scope: Seq<(Seq<char>, ObjectView)>,
) -> ArgsOut
    decreases fuel, ns, 2nat,
{
    if ns.len() == 0 {
        ArgsOut { env, scope, res: Ok(Seq::empty()) }
    } else {
        let ev = eval_node(fuel, ns.first(), env, scope);
        match ev.res {
            Ok(v) => {
                let rest = eval_args(fuel, ns.drop_first(), ev.env, ev.scope);
                match rest.res {
                    Ok(vs) => ArgsOut {
                        env: rest.env,
                        scope: rest.scope,
                        res: Ok(seq![v] + vs),
                    },
                    Err(e) => rest,
                }
            },
            Err(e) => ArgsOut { env: ev.env, scope: ev.scope, res: Err(e) },
        }
    }
}

/// The scan of match arms in declaration order: the first arm whose
/// pattern value equals the subject has its body evaluated and returned;
/// anything that is not a finished arm is skipped; with no matching arm
/// the result is `None`.
pub open spec fn eval_arms(
    fuel: nat,
    subject: ObjectView,
    arms: Seq<NodeView>,
    env: EnvView,
    scope: Seq<(Seq<char>, ObjectView)>,
) -> EvalOut
    decreases fuel, arms, 2nat,
{
    if arms.len() == 0 {
        EvalOut { env, scope, res: Ok(ObjectView::Nil) }
    } else {
        match arms.first() {
            NodeView::MatchArm(matcher, body) => {
                let ev = eval_node(fuel, *matcher, env, scope);
                match ev.res {
                    Ok(mv) => if objects_match(subject, mv) {
                        eval_node(fuel, *body, ev.env, ev.scope)
                    } else {
                        eval_arms(fuel, subject, arms.drop_first(), ev.env, ev.scope)
                    },
                    Err(e) => ev,
                }
            },
            _ => eval_arms(fuel, subject, arms.drop_first(), env, scope),
        }
    }
}

/// The dispatch of a call on an evaluated callee with evaluated
/// arguments. A native handle whose symbol is `print` renders each
/// argument and appends the lines to the output; any other native symbol
/// is unavailable in-process. A function runs its body in a fresh scope
/// holding its parameter bindings and `self` bound to the receiver. A
/// bound function re-dispatches with its own receiver. A class hands out
/// a fresh copy of its prototype's field map. Nothing else is callable.
pub open spec fn eval_call(
    fuel: nat,
    callee: ObjectView,
    vals: Seq<ObjectView>,
    recv: ObjectView,
    env: EnvView,
) -> (EnvView, Result<ObjectView, FatalView>)
    decreases fuel, callee, 2nat,
{
    match callee {
        ObjectView::Native(lib, sym) => if sym == "print"@ {
            match render_all(vals, env.floats) {
                Ok(lines) => (
                    EnvView { output: env.output + lines, ..env },
                    Ok(ObjectView::Nil),
                ),
                Err(e) => (env, Err(e)),
            }
        } else {
            (env, Err(FatalView::NoSuchNative(lib, sym)))
        },
        ObjectView::Function(params, body) => match bind_params(params, vals) {
            Ok(b) => {
                let fresh = b.push(("self"@, recv));
                if fuel == 0 {
                    (env, Err(FatalView::OutOfFuel))
                } else {
                    let ev = eval_stmts((fuel - 1) as nat, body, env, fresh, ObjectView::Nil);
                    (ev.env, ev.res)
                }
            },
            Err(e) => (env, Err(e)),
        },
        ObjectView::BoundFunction(r, f) => eval_call(fuel, *f, vals, *r, env),
        ObjectView::Class(h) => if 0 <= h < env.arena.len() {
            match lookup_binding(env.arena[h], "$prototype"@) {
                None => (env, Err(FatalView::UnknownField("$prototype"@))),
                Some(p) => match p {
                    ObjectView::Instance(ph) => if 0 <= ph < env.arena.len() {
                        (
                            EnvView { arena: env.arena.push(env.arena[ph]), ..env },
                            Ok(ObjectView::Instance(env.arena.len() as int)),
                        )
                    } else {
                        (env, Err(FatalView::Unevaluable))
                    },
                    _ => (env, Ok(p)),
                },
            }
        } else {
            (env, Err(FatalView::Unevaluable))
        },
        _ => (env, Err(FatalView::NotCallable)),
    }
}

/// A digit run has a value of at least zero.
proof fn lemma_digits_nonneg(s: Seq<char>)
    requires
        is_digit_seq(s),
    ensures
        digits_value(s) >= 0,
    decreases s.len(),
{
    if s.len() > 0 {
        assert(is_digit_seq(s.drop_last())) by {
            assert(forall|i: int|
                0 <= i < s.len() - 1 ==> is_digit_char(#[trigger] s.drop_last()[i]));
        }
        lemma_digits_nonneg(s.drop_last());
        assert(is_digit_char(s.last()));
    }
}

/// A digit run is worth at least any of its prefixes.
proof fn lemma_digits_prefix_le(s: Seq<char>, i: int)
    requires
        is_digit_seq(s),
        0 <= i <= s.len(),
    ensures
        digits_value(s.take(i)) <= digits_value(s),
    decreases s.len() - i,
{
    if i == s.len() {
        assert(s.take(i) =~= s);
    } else {
        lemma_digits_prefix_le(s, i + 1);
        let p = s.take(i + 1);
        assert(p.drop_last() =~= s.take(i));
        assert(p.last() == s[i]);
        assert(digit_val(s[i]) >= 0);
        assert(is_digit_seq(s.take(i))) by {
            assert(forall|k: int|
                0 <= k < i ==> is_digit_char(#[trigger] s.take(i)[k]));
        }
        lemma_digits_nonneg(s.take(i));
        assert(is_digit_char(s[i]));
        assert(digits_value(p) == digits_value(s.take(i)) * 10 + digit_val(s[i]));
        assert(digits_value(s.take(i)) * 10 >= digits_value(s.take(i)));
    }
}

fn digit_of(c: char) -> (d: i64)
    requires
        is_digit_char(c),
    ensures
        d == digit_val(c),
        0 <= d <= 9,
{
    ((c as u32) - ('0' as u32)) as i64
}

/// The integer value of a number literal: `Some` exactly when the text is
/// a nonempty run of decimal digits whose value fits a 64-bit signed
/// integer.
fn parse_integer(s: &String) -> (r: Option<i64>)
    ensures
        match r {
            Some(v) => s@.len() > 0 && is_digit_seq(s@) && digits_value(s@) <= i64::MAX && v
                == digits_value(s@),
            None => !(s@.len() > 0 && is_digit_seq(s@) && digits_value(s@) <= i64::MAX),
        },
{
    let text = s.as_str();
    let n = text.unicode_len();
    if n == 0 {
        return None;
    }
    let mut i: usize = 0;
    while i < n
        invariant
            0 <= i <= n,
            n == s@.len(),
            text@ == s@,
            forall|k: int| 0 <= k < i ==> is_digit_char(#[trigger] s@[k]),
        decreases n - i,
    {
        let c = text.get_char(i);
        if !('0' <= c && c <= '9') {
            proof {
                assert(!is_digit_char(s@[i as int]));
            }
            return None;
        }
        i = i + 1;
    }
    proof {
        assert(is_digit_seq(s@));
    }
    let mut acc: i64 = 0;
    let mut j: usize = 0;
    proof {
        assert(s@.take(0) =~= Seq::<char>::empty());
    }
    while j < n
        invariant
            0 <= j <= n,
            n == s@.len(),
            text@ == s@,
            is_digit_seq(s@),
            acc == digits_value(s@.take(j as int)),
            acc >= 0,
        decreases n - j,
    {
        let c = text.get_char(j);
        proof {
            assert(is_digit_char(s@[j as int]));
            assert(s@.take(j as int + 1).drop_last() =~= s@.take(j as int));
            assert(s@.take(j as int + 1).last() == s@[j as int]);
        }
        let d = digit_of(c);
        let ghost next_val = digits_value(s@.take(j as int + 1));
        match acc.checked_mul(10) {
            Some(m) => match m.checked_add(d) {
                Some(v) => {
                    acc = v;
                },
                None => {
                    proof {
                        lemma_digits_prefix_le(s@, j as int + 1);
                    }
                    return None;
                },
            },
            None => {
                proof {
                    lemma_digits_prefix_le(s@, j as int + 1);
                }
                return None;
            },
        }
        j = j + 1;
    }
    proof {
        assert(s@.take(n as int) =~= s@);
    }
    Some(acc)
}

fn digit_char_exec(d: u64) -> (c: char)
    requires
        d <= 9,
    ensures
        c == digit_char_of(d as int),
{
    if d == 0 {
        '0'
    } else if d == 1 {
        '1'
    } else if d == 2 {
        '2'
    } else if d == 3 {
        '3'
    } else if d == 4 {
        '4'
    } else if d == 5 {
        '5'
    } else if d == 6 {
        '6'
    } else if d == 7 {
        '7'
    } else if d == 8 {
        '8'
    } else {
        '9'
    }
}

fn dec_digits_string(n: u64) -> (r: String)
    ensures
        r@ == dec_digits(n as int),
    decreases n,
{
    if n <= 9 {
        let mut s = String::new();
        crate::token::push_char(&mut s, digit_char_exec(n));
        proof {
            assert(s@ =~= seq![digit_char_of(n as int)]);
        }
        s
    } else {
        let mut s = dec_digits_string(n / 10);
        crate::token::push_char(&mut s, digit_char_exec(n % 10));
        s
    }
}

/// The decimal rendering of an integer, with a leading minus sign when
/// negative.
pub fn int_to_string(i: i64) -> (r: String)
    ensures
        r@ == render_int(i as int),
{
    if i >= 0 {
        dec_digits_string(i as u64)
    } else {
        let mag: u64 = ((-(i + 1)) as u64) + 1;
        proof {
            assert(mag == -(i as int));
        }
        let ds = dec_digits_string(mag);
        let mut out = String::new();
        crate::token::push_char(&mut out, '-');
        out.append(ds.as_str());
        proof {
            assert(out@ =~= seq!['-'] + dec_digits(mag as int));
        }
        out
    }
}

proof fn lemma_join_step(vs: Seq<Seq<char>>, i: int)
    requires
        0 <= i < vs.len(),
    ensures
        i + 1 < vs.len() ==> join_names(vs.skip(i)) == vs[i] + seq![',', ' '] + join_names(
            vs.skip(i + 1),
        ),
        i + 1 == vs.len() ==> join_names(vs.skip(i)) == vs[i],
{
    assert(vs.skip(i).first() == vs[i]);
    assert(vs.skip(i).drop_first() =~= vs.skip(i + 1));
}

fn lit_string(t: &str) -> (r: String)
    ensures
        r@ == t@,
{
    t.to_owned()
}

impl Object {
    /// The text this object prints as; a float's rendering is read from
    /// the recorded floating-point answers.
    pub fn to_string(&self, floats: &FloatTable) -> (r: Result<String, Fatal>)
        ensures
            match r {
                Ok(s) => render_object(self.deep_view(), floats@) == Ok::<Seq<char>, FatalView>(
                    s@,
                ),
                Err(e) => render_object(self.deep_view(), floats@) == Err::<Seq<char>, FatalView>(
                    e.deep_view(),
                ),
            },
    {
        match self {
            Object::Nil => Ok(lit_string("None")),
            Object::Integer(i) => Ok(int_to_string(*i)),
            Object::Float(b) => match floats.lookup(&FloatOp::Print(*b)) {
                Some(FloatAns::Text(s)) => Ok(s),
                _ => Err(Fatal::FloatUnavailable(FloatOp::Print(*b))),
            },
            Object::Str(s) => Ok(s.clone()),
            Object::Error(m) => {
                let mut out = lit_string("Error: ");
                out.append(m.as_str());
                Ok(out)
            },
            Object::Native(_, _) => Ok(lit_string("[native code]")),
            Object::Function(_, _) => Ok(lit_string("function")),
            Object::BoundFunction(_, _) => Ok(lit_string("function")),
            Object::Enum(name, vs) => {
                let ghost vsv = vs.deep_view();
                let mut out = name.clone();
                crate::token::push_char(&mut out, '[');
                let n = vs.len();
                let mut i: usize = 0;
                let ghost mut done: Seq<char> = Seq::empty();
                proof {
                    assert(out@ =~= name@ + seq!['['] + done);
                    assert(vsv.len() == vs@.len());
                }
                while i < n
                    invariant
                        0 <= i <= n,
                        n == vs@.len(),
                        vsv == vs.deep_view(),
                        vsv.len() == n,
                        out@ == name@ + seq!['['] + done,
                        i == 0 ==> done == Seq::<char>::empty(),
                        1 <= i < n ==> join_names(vsv) == done + seq![',', ' '] + join_names(
                            vsv.skip(i as int),
                        ),
                        i >= 1 && i == n ==> join_names(vsv) == done,
                    decreases n - i,
                {
                    proof {
                        assert(vsv[i as int] == vs@[i as int]@);
                        lemma_join_step(vsv, i as int);
                        assert(vsv.skip(0) =~= vsv);
                    }
                    if i > 0 {
                        out.append(", ");
                        proof {
                            done = done + seq![',', ' '];
                            assert(", "@ =~= seq![',', ' ']) by {
                                reveal_strlit(", ");
                            }
                            assert(out@ =~= name@ + seq!['['] + done);
                        }
                    }
                    out.append(vs[i].as_str());
                    proof {
                        done = done + vsv[i as int];
                        assert(out@ =~= name@ + seq!['['] + done);
                        if i + 1 < n {
                            assert(join_names(vsv) == done + seq![',', ' '] + join_names(
                                vsv.skip(i as int + 1),
                            )) by {
                                assert(vsv.skip(i as int) =~= vsv.skip(i as int));
                            }
                        }
                    }
                    i = i + 1;
                }
                crate::token::push_char(&mut out, ']');
                proof {
                    if n == 0 {
                        assert(join_names(vsv) == Seq::<char>::empty());
                    }
                    assert(out@ =~= name@ + seq!['['] + join_names(vsv) + seq![']']);
                }
                Ok(out)
            },
            Object::EnumVariant(e, v) => {
                let mut out = e.clone();
                crate::token::push_char(&mut out, '.');
                out.append(v.as_str());
                proof {
                    assert(out@ =~= e@ + seq!['.'] + v@);
                }
                Ok(out)
            },
            Object::Class(_) => Ok(lit_string("class")),
            Object::Instance(_) => Ok(lit_string("instance")),
        }
    }
}

fn as_enum_variant(o: &Object) -> (r: Option<(&String, &String)>)
    ensures
        match r {
            Some(p) => o.deep_view() == ObjectView::EnumVariant(p.0@, p.1@),
            None => !(o.deep_view() is EnumVariant),
        },
{
    match o {
        Object::EnumVariant(e, v) => Some((e, v)),
        Object::Nil => None,
        Object::Integer(_) => None,
        Object::Float(_) => None,
        Object::Error(_) => None,
        Object::Str(_) => None,
        Object::Native(_, _) => None,
        Object::Enum(_, _) => None,
        Object::Function(_, _) => None,
        Object::BoundFunction(_, _) => None,
        Object::Class(_) => None,
        Object::Instance(_) => None,
    }
}

fn match_values(a: &Object, b: &Object) -> (r: bool)
    ensures
        r == objects_match(a.deep_view(), b.deep_view()),
{
    match (as_enum_variant(a), as_enum_variant(b)) {
        (Some(p1), Some(p2)) => {
            let en = *p1.0 == *p2.0;
            let vn = *p1.1 == *p2.1;
            en && vn
        },
        _ => false,
    }
}

/// An exact copy of a binding list.
pub(crate) fn clone_scope(s: &Scope) -> (r: Scope)
    ensures
        r@ == s@,
{
    let mut entries: Vec<(String, Object)> = Vec::new();
    let n = s.entries.len();
    let mut i: usize = 0;
    while i < n
        invariant
            0 <= i <= n,
            n == s.entries@.len(),
            entries@.len() == i,
            forall|k: int|
                0 <= k < i ==> (#[trigger] entries@[k]).0@ == s.entries@[k].0@ && entries@[k].1.deep_view()
                    == s.entries@[k].1.deep_view(),
        decreases n - i,
    {
        let name = s.entries[i].0.clone();
        let obj = s.entries[i].1.clone();
        entries.push((name, obj));
        i = i + 1;
    }
    let r = Scope { entries };
    proof {
        assert(r@ =~~= s@);
    }
    r
}

fn bind_params_exec(params: &Vec<Node>, args: &Vec<Object>) -> (r: Result<Scope, Fatal>)
    ensures
        match r {
            Ok(sc) => bind_params(crate::node::view_nodes(params@), args.deep_view()) == Ok::<
                Seq<(Seq<char>, ObjectView)>,
                FatalView,
            >(sc@),
            Err(e) => bind_params(crate::node::view_nodes(params@), args.deep_view()) == Err::<
                Seq<(Seq<char>, ObjectView)>,
                FatalView,
            >(e.deep_view()),
        },
{
    broadcast use crate::node::lemma_view_nodes_len, crate::node::lemma_view_nodes_index;

    let ghost pv = crate::node::view_nodes(params@);
    let ghost av = args.deep_view();
    let mut scope = Scope::new();
    let n = params.len();
    let mut i: usize = 0;
    proof {
        assert(pv.take(0) =~= Seq::<NodeView>::empty());
    }
    while i < n
        invariant
            0 <= i <= n,
            n == params@.len(),
            pv == crate::node::view_nodes(params@),
            av == args.deep_view(),
            pv.len() == n,
            av.len() == args@.len(),
            bind_params(pv.take(i as int), av) == Ok::<
                Seq<(Seq<char>, ObjectView)>,
                FatalView,
            >(scope@),
        decreases n - i,
    {
        proof {
            assert(pv.take(i as int + 1).drop_last() =~= pv.take(i as int));
            assert(pv.take(i as int + 1).len() == i + 1);
            assert(pv.take(i as int + 1)[i as int] == pv[i as int]);
            assert(pv.take(i as int + 1).last() == pv[i as int]);
            crate::node::lemma_view_nodes_index(params@, i as int);
            crate::node::lemma_view_nodes_len(params@);
        }
        match &params[i] {
            Node::Identifier(nm) => {
                let v = if i < args.len() {
                    args[i].clone()
                } else {
                    Object::Nil
                };
                proof {
                    if i < args.len() {
                        assert(av[i as int] == args@[i as int].deep_view());
                    }
                }
                scope.insert(nm.as_str(), v);
            },
            _ => {
                proof {
                    lemma_bind_params_err(pv, av, i as int);
                }
                return Err(Fatal::BadParameter);
            },
        }
        i = i + 1;
    }
    proof {
        assert(pv.take(n as int) =~= pv);
    }
    Ok(scope)
}

/// A parameter list holding anything but an identifier never binds.
proof fn lemma_bind_params_err(params: Seq<NodeView>, args: Seq<ObjectView>, i: int)
    requires
        0 <= i < params.len(),
        !(params[i] is Identifier),
    ensures
        bind_params(params, args) == Err::<Seq<(Seq<char>, ObjectView)>, FatalView>(
            FatalView::BadParameter,
        ),
    decreases params.len(),
{
    if i == params.len() - 1 {
    } else {
        assert(params.drop_last()[i] == params[i]);
        lemma_bind_params_err(params.drop_last(), args, i);
    }
}

fn idents_of_exec(ns: &Vec<Node>) -> (r: Option<Vec<String>>)
    ensures
        match r {
            Some(names) => idents_of(crate::node::view_nodes(ns@)) == Some(names.deep_view()),
            None => idents_of(crate::node::view_nodes(ns@)) is None,
        },
{
    broadcast use crate::node::lemma_view_nodes_len, crate::node::lemma_view_nodes_index;

    let ghost nv = crate::node::view_nodes(ns@);
    let mut names: Vec<String> = Vec::new();
    let n = ns.len();
    let mut i: usize = 0;
    proof {
        assert(nv.skip(0) =~= nv);
    }
    while i < n
        invariant
            0 <= i <= n,
            n == ns@.len(),
            nv == crate::node::view_nodes(ns@),
            nv.len() == n,
            names@.len() == i,
            forall|k: int|
                0 <= k < i ==> #[trigger] nv[k] == NodeView::Identifier(names@[k]@),
        decreases n - i,
    {
        proof {
            crate::node::lemma_view_nodes_index(ns@, i as int);
            crate::node::lemma_view_nodes_len(ns@);
        }
        match &ns[i] {
            Node::Identifier(nm) => {
                names.push(nm.clone());
            },
            _ => {
                proof {
                    lemma_idents_of_err(nv, i as int);
                }
                return None;
            },
        }
        i = i + 1;
    }
    proof {
        lemma_idents_of_ok(nv, names.deep_view());
    }
    Some(names)
}

/// A variant list holding anything but identifiers yields no names.
proof fn lemma_idents_of_err(ns: Seq<NodeView>, i: int)
    requires
        0 <= i < ns.len(),
        !(ns[i] is Identifier),
    ensures
        idents_of(ns) is None,
    decreases ns.len(),
{
    if ns.len() > 0 {
        if i == 0 {
        } else {
            assert(ns.drop_first()[i - 1] == ns[i]);
            lemma_idents_of_err(ns.drop_first(), i - 1);
        }
    }
}

/// A variant list of identifiers yields exactly its names.
proof fn lemma_idents_of_ok(ns: Seq<NodeView>, names: Seq<Seq<char>>)
    requires
        ns.len() == names.len(),
        forall|k: int| 0 <= k < ns.len() ==> ns[k] == NodeView::Identifier(#[trigger] names[k]),
    ensures
        idents_of(ns) == Some(names),
    decreases ns.len(),
{
    if ns.len() == 0 {
        assert(names =~= Seq::<Seq<char>>::empty());
    } else {
        assert(forall|k: int|
            0 <= k < ns.drop_first().len() ==> ns.drop_first()[k] == NodeView::Identifier(
                #[trigger] names.drop_first()[k],
            ));
        lemma_idents_of_ok(ns.drop_first(), names.drop_first());
        assert(ns.first() == NodeView::Identifier(names[0]));
        assert(seq![names[0]] + names.drop_first() =~= names);
    }
}

fn as_identifier(n: &Node) -> (r: Option<&String>)
    ensures
        match r {
            Some(p) => n.deep_view() == NodeView::Identifier(p@),
            None => !(n.deep_view() is Identifier),
        },
{
    match n {
        Node::Program(_) => None,
        Node::Assignment(_, _) => None,
        Node::Addition(_, _) => None,
        Node::Substraction(_, _) => None,
        Node::Multiplication(_, _) => None,
        Node::Division(_, _) => None,
        Node::Modulus(_, _) => None,
        Node::Number(_) => None,
        Node::Identifier(s) => Some(s),
        Node::Literal(_, _) => None,
        Node::Call(_, _) => None,
        Node::PartialCall(_, _) => None,
        Node::Parenthesized(_) => None,
        Node::Member(_, _) => None,
        Node::PartialMember(_) => None,
        Node::PartialParenthesized(_) => None,
        Node::FunctionArgs(_) => None,
        Node::PartialFunctionDefinition(_, _) => None,
        Node::FunctionDefinition(_, _) => None,
        Node::UnnamedEnumDefinition => None,
        Node::NamedEnumDefinition(_) => None,
        Node::PartialEnumDefinition(_, _) => None,
        Node::EnumDefinition(_, _) => None,
        Node::UnnamedClassDefinition => None,
        Node::NamedClassDefinition(_) => None,
        Node::PartialClassDefinition(_, _) => None,
        Node::ClassDefinition(_, _) => None,
        Node::PartialMatch(_, _) => None,
        Node::UnopenedMatch(_) => None,
        Node::UnopenedMatchArm(_) => None,
        Node::MatchArmWithoutColon(_) => None,
        Node::PartialMatchArm(_, _) => None,
        Node::MatchArm(_, _) => None,
        Node::Match(_, _) => None,
        Node::Empty => None,
    }
}

fn as_member_target(n: &Node) -> (r: Option<(&Node, &String)>)
    ensures
        match r {
            Some(p) => n.deep_view() == NodeView::Member(Box::new(crate::node::view_node(*p.0)), p.1@)
                && *n == Node::Member(Box::new(*p.0), *p.1),
            None => !(n.deep_view() is Member),
        },
{
    match n {
        Node::Program(_) => None,
        Node::Assignment(_, _) => None,
        Node::Addition(_, _) => None,
        Node::Substraction(_, _) => None,
        Node::Multiplication(_, _) => None,
        Node::Division(_, _) => None,
        Node::Modulus(_, _) => None,
        Node::Number(_) => None,
        Node::Identifier(_) => None,
        Node::Literal(_, _) => None,
        Node::Call(_, _) => None,
        Node::PartialCall(_, _) => None,
        Node::Parenthesized(_) => None,
        Node::Member(obj, field) => Some((&**obj, field)),
        Node::PartialMember(_) => None,
        Node::PartialParenthesized(_) => None,
        Node::FunctionArgs(_) => None,
        Node::PartialFunctionDefinition(_, _) => None,
        Node::FunctionDefinition(_, _) => None,
        Node::UnnamedEnumDefinition => None,
        Node::NamedEnumDefinition(_) => None,
        Node::PartialEnumDefinition(_, _) => None,
        Node::EnumDefinition(_, _) => None,
        Node::UnnamedClassDefinition => None,
        Node::NamedClassDefinition(_) => None,
        Node::PartialClassDefinition(_, _) => None,
        Node::ClassDefinition(_, _) => None,
        Node::PartialMatch(_, _) => None,
        Node::UnopenedMatch(_) => None,
        Node::UnopenedMatchArm(_) => None,
        Node::MatchArmWithoutColon(_) => None,
        Node::PartialMatchArm(_, _) => None,
        Node::MatchArm(_, _) => None,
        Node::Match(_, _) => None,
        Node::Empty => None,
    }
}

fn as_match_arm(n: &Node) -> (r: Option<(&Node, &Node)>)
    ensures
        match r {
            Some(p) => n.deep_view() == NodeView::MatchArm(Box::new(crate::node::view_node(*p.0)), Box::new(crate::node::view_node(*p.1)))
                && *n == Node::MatchArm(Box::new(*p.0), Box::new(*p.1)),
            None => !(n.deep_view() is MatchArm),
        },
{
    match n {
        Node::Program(_) => None,
        Node::Assignment(_, _) => None,
        Node::Addition(_, _) => None,
        Node::Substraction(_, _) => None,
        Node::Multiplication(_, _) => None,
        Node::Division(_, _) => None,
        Node::Modulus(_, _) => None,
        Node::Number(_) => None,
        Node::Identifier(_) => None,
        Node::Literal(_, _) => None,
        Node::Call(_, _) => None,
        Node::PartialCall(_, _) => None,
        Node::Parenthesized(_) => None,
        Node::Member(_, _) => None,
        Node::PartialMember(_) => None,
        Node::PartialParenthesized(_) => None,
        Node::FunctionArgs(_) => None,
        Node::PartialFunctionDefinition(_, _) => None,
        Node::FunctionDefinition(_, _) => None,
        Node::UnnamedEnumDefinition => None,
        Node::NamedEnumDefinition(_) => None,
        Node::PartialEnumDefinition(_, _) => None,
        Node::EnumDefinition(_, _) => None,
        Node::UnnamedClassDefinition => None,
        Node::NamedClassDefinition(_) => None,
        Node::PartialClassDefinition(_, _) => None,
        Node::ClassDefinition(_, _) => None,
        Node::PartialMatch(_, _) => None,
        Node::UnopenedMatch(_) => None,
        Node::UnopenedMatchArm(_) => None,
        Node::MatchArmWithoutColon(_) => None,
        Node::PartialMatchArm(_, _) => None,
        Node::MatchArm(m, b) => Some((&**m, &**b)),
        Node::Match(_, _) => None,
        Node::Empty => None,
    }
}

fn as_instance_handle(o: &Object) -> (r: Option<usize>)
    ensures
        match r {
            Some(p) => o.deep_view() == ObjectView::Instance(p as int),
            None => !(o.deep_view() is Instance),
        },
{
    match o {
        Object::Nil => None,
        Object::Integer(_) => None,
        Object::Float(_) => None,
        Object::Error(_) => None,
        Object::Str(_) => None,
        Object::Native(_, _) => None,
        Object::Enum(_, _) => None,
        Object::EnumVariant(_, _) => None,
        Object::Function(_, _) => None,
        Object::BoundFunction(_, _) => None,
        Object::Class(_) => None,
        Object::Instance(h) => Some(*h),
    }
}

fn is_function_obj(o: &Object) -> (r: bool)
    ensures
        r == (o.deep_view() is Function),
{
    match o {
        Object::Function(_, _) => true,
        Object::Nil => false,
        Object::Integer(_) => false,
        Object::Float(_) => false,
        Object::Error(_) => false,
        Object::Str(_) => false,
        Object::Native(_, _) => false,
        Object::Enum(_, _) => false,
        Object::EnumVariant(_, _) => false,
        Object::BoundFunction(_, _) => false,
        Object::Class(_) => false,
        Object::Instance(_) => false,
    }
}

enum NumOperand {
    I(i64),
    F(u64),
}

fn numeric_of(o: &Object) -> (r: Option<NumOperand>)
    ensures
        match r {
            Some(NumOperand::I(i)) => o.deep_view() == ObjectView::Integer(i),
            Some(NumOperand::F(b)) => o.deep_view() == ObjectView::Float(b),
            None => !(o.deep_view() is Integer) && !(o.deep_view() is Float),
        },
{
    match o {
        Object::Integer(i) => Some(NumOperand::I(*i)),
        Object::Float(b) => Some(NumOperand::F(*b)),
        Object::Nil => None,
        Object::Error(_) => None,
        Object::Str(_) => None,
        Object::Native(_, _) => None,
        Object::Enum(_, _) => None,
        Object::EnumVariant(_, _) => None,
        Object::Function(_, _) => None,
        Object::BoundFunction(_, _) => None,
        Object::Class(_) => None,
        Object::Instance(_) => None,
    }
}

fn float_op_exec(op: ArithOp, a: u64, b: u64) -> (r: FloatOp)
    ensures
        r.deep_view() == float_op_of(op, a, b),
{
    match op {
        ArithOp::Add => FloatOp::Add(a, b),
        ArithOp::Sub => FloatOp::Sub(a, b),
        ArithOp::Mul => FloatOp::Mul(a, b),
        ArithOp::Div => FloatOp::Div(a, b),
        ArithOp::Rem => FloatOp::Rem(a, b),
    }
}

fn int_arith_exec(op: ArithOp, x: i64, y: i64) -> (r: Result<Object, Fatal>)
    ensures
        res_view(r) == int_arith(op, x, y),
{
    match op {
        ArithOp::Add => match x.checked_add(y) {
            Some(v) => Ok(Object::Integer(v)),
            None => Err(Fatal::ArithmeticOverflow),
        },
        ArithOp::Sub => match x.checked_sub(y) {
            Some(v) => Ok(Object::Integer(v)),
            None => Err(Fatal::ArithmeticOverflow),
        },
        ArithOp::Mul => match x.checked_mul(y) {
            Some(v) => Ok(Object::Integer(v)),
            None => Err(Fatal::ArithmeticOverflow),
        },
        ArithOp::Div => if y == 0 {
            Err(Fatal::DivisionByZero)
        } else {
            match x.checked_div(y) {
                Some(v) => Ok(Object::Integer(v)),
                None => Err(Fatal::ArithmeticOverflow),
            }
        },
        ArithOp::Rem => if y == 0 {
            Err(Fatal::DivisionByZero)
        } else {
            match x.checked_rem(y) {
                Some(v) => Ok(Object::Integer(v)),
                None => Err(Fatal::ArithmeticOverflow),
            }
        },
    }
}

fn promote_exec(v: &NumOperand, floats: &FloatTable, ov: Ghost<ObjectView>) -> (r: Result<
    u64,
    Fatal,
>)
    requires
        v matches NumOperand::I(i) ==> ov@ == ObjectView::Integer(*i),
        v matches NumOperand::F(b) ==> ov@ == ObjectView::Float(*b),
    ensures
        match r {
            Ok(b) => promote(ov@, floats@) == Ok::<u64, FatalView>(b),
            Err(e) => promote(ov@, floats@) == Err::<u64, FatalView>(e.deep_view()),
        },
{
    match v {
        NumOperand::F(b) => Ok(*b),
        NumOperand::I(i) => match floats.lookup(&FloatOp::FromInt(*i)) {
            Some(FloatAns::Bits(b)) => Ok(b),
            _ => Err(Fatal::FloatUnavailable(FloatOp::FromInt(*i))),
        },
    }
}

/// The numeric-promotion arithmetic of the interpreter, on evaluated
/// operands.
fn arith_exec(op: ArithOp, x: &Object, y: &Object, floats: &FloatTable) -> (r: Result<
    Object,
    Fatal,
>)
    ensures
        res_view(r) == arith_result(op, x.deep_view(), y.deep_view(), floats@),
{
    match (numeric_of(x), numeric_of(y)) {
        (Some(NumOperand::I(a)), Some(NumOperand::I(b))) => int_arith_exec(op, a, b),
        (Some(nx), Some(ny)) => {
            match promote_exec(&nx, floats, Ghost(x.deep_view())) {
                Ok(a) => match promote_exec(&ny, floats, Ghost(y.deep_view())) {
                    Ok(b) => match floats.lookup(&float_op_exec(op, a, b)) {
                        Some(FloatAns::Bits(rb)) => Ok(Object::Float(rb)),
                        _ => Err(Fatal::FloatUnavailable(float_op_exec(op, a, b))),
                    },
                    Err(e) => Err(e),
                },
                Err(e) => Err(e),
            }
        },
        _ => Err(Fatal::NotNumeric),
    }
}

/// What a name resolves to: the local scope first, the natives second,
/// otherwise a fatal lookup error.
pub open spec fn lookup_name(
    scope: Seq<(Seq<char>, ObjectView)>,
    natives: Seq<(Seq<char>, ObjectView)>,
    name: Seq<char>,
) -> Result<ObjectView, FatalView> {
    match lookup_binding(scope, name) {
        Some(o) => Ok(o),
        None => match lookup_binding(natives, name) {
            Some(o) => Ok(o),
            None => Err(FatalView::UnknownIdentifier(name)),
        },
    }
}

/// The view of an interpretation result.
pub open spec fn res_view(r: Result<Object, Fatal>) -> Result<ObjectView, FatalView> {
    match r {
        Ok(o) => Ok(o.deep_view()),
        Err(e) => Err(e.deep_view()),
    }
}

/// The interpreter state: the read-only natives table, the arena of class
/// and instance field maps (so that field mutation through one reference
/// is seen through all), the lines printed so far, and the recorded
/// floating-point answers.
#[derive(Debug)]
pub struct Env {
    pub natives: Scope,
    pub arena: Vec<Scope>,
    pub output: Vec<String>,
    pub floats: FloatTable,
}

impl View for Env {
    type V = EnvView;

    open spec fn view(&self) -> EnvView {
        EnvView {
            natives: self.natives@,
            arena: self.arena.deep_view(),
            output: self.output.deep_view(),
            floats: self.floats@,
        }
    }
}

/// A handle to a natively-implemented function, identified by its library
/// locator and symbol name.
pub fn build_native_function(symbol: &str) -> (r: Object)
    ensures
        r.deep_view() == ObjectView::Native("../std/target/release/libstd.so"@, symbol@),
{
    Object::Native(lit_string("../std/target/release/libstd.so"), symbol.to_owned())
}

impl Env {
    /// A fresh environment holding the native `print` function and no
    /// recorded floating-point answers.
    pub fn new() -> (r: Env)
        ensures
            r@.natives =~~= seq![
                ("print"@, ObjectView::Native("../std/target/release/libstd.so"@, "print"@)),
            ],
            r@.arena =~~= Seq::<Seq<(Seq<char>, ObjectView)>>::empty(),
            r@.output =~~= Seq::<Seq<char>>::empty(),
            r@.floats =~~= Seq::<(FloatOpView, FloatAnsView)>::empty(),
    {
        let mut env = Env {
            natives: Scope::new(),
            arena: Vec::new(),
            output: Vec::new(),
            floats: FloatTable::new(),
        };
        env.build_natives();
        env
    }

    /// A fresh environment with the given recorded floating-point
    /// answers.
    pub fn with_floats(floats: FloatTable) -> (r: Env)
        ensures
            r@.natives =~~= seq![
                ("print"@, ObjectView::Native("../std/target/release/libstd.so"@, "print"@)),
            ],
            r@.arena =~~= Seq::<Seq<(Seq<char>, ObjectView)>>::empty(),
            r@.output =~~= Seq::<Seq<char>>::empty(),
            r@.floats == floats@,
    {
        let mut env = Env {
            natives: Scope::new(),
            arena: Vec::new(),
            output: Vec::new(),
            floats,
        };
        env.build_natives();
        env
    }

    /// Installs the native bindings: the `print` function.
    pub fn build_natives(&mut self)
        ensures
            final(self)@.natives =~~= old(self)@.natives.push(
                ("print"@, ObjectView::Native("../std/target/release/libstd.so"@, "print"@)),
            ),
            final(self)@.arena == old(self)@.arena,
            final(self)@.output == old(self)@.output,
            final(self)@.floats == old(self)@.floats,
    {
        let f = build_native_function("print");
        self.natives.insert("print", f);
    }

    /// Resolves `name` in the local scope first and the natives second; an
    /// unresolved name is a fatal lookup error.
    pub fn get_obj(&self, name: &str, scope: &Scope) -> (r: Result<Object, Fatal>)
        ensures
            res_view(r) == lookup_name(scope@, self@.natives, name@),
    {
        match scope.get(name) {
            Some(o) => Ok(o),
            None => match self.natives.get(name) {
                Some(o) => Ok(o),
                None => Err(Fatal::UnknownIdentifier(name.to_owned())),
            },
        }
    }

    /// An integer value.
    pub fn build_integer(&self, integer: i64) -> (r: Object)
        ensures
            r.deep_view() == ObjectView::Integer(integer),
    {
        Object::Integer(integer)
    }

    /// A floating-point value, from its bit pattern.
    pub fn build_float(&self, bits: u64) -> (r: Object)
        ensures
            r.deep_view() == ObjectView::Float(bits),
    {
        Object::Float(bits)
    }

    /// A function value capturing its parameter list and body verbatim.
    pub fn build_function(&self, args: Vec<Node>, body: Vec<Node>) -> (r: Object)
        ensures
            r.deep_view() == ObjectView::Function(
                crate::node::view_nodes(args@),
                crate::node::view_nodes(body@),
            ),
    {
        Object::Function(args, body)
    }
}

impl Env {
    /// Recursively evaluates `ast` against `scope`, producing the value
    /// or the fatal error, mutating the environment and scope as the
    /// program directs. `fuel` bounds the depth of function-call
    /// dispatch; when it runs out the evaluation fails fatally rather
    /// than recurse without bound.
    #[verifier::rlimit(100)]
    pub fn interpret(&mut self, ast: &Node, scope: &mut Scope, fuel: u64) -> (r: Result<
        Object,
        Fatal,
    >)
        ensures
            ({
                let out = eval_node(fuel as nat, ast.deep_view(), old(self)@, old(scope)@);
                final(self)@ == out.env && final(scope)@ == out.scope && res_view(r) == out.res
            }),
        decreases fuel, *ast, 2int,
    {
        match ast {
            Node::Program(nodes) => {
                proof {
                    assert(decreases_to!(*ast => *nodes));
                    assert(decreases_to!(*nodes => nodes@));
                }
                self.interpret_stmts(nodes, scope, fuel)
            },
            Node::Number(string) => {
                if crate::token::string_contains_char(string, '.') {
                    match self.floats.lookup(&FloatOp::Parse(string.clone())) {
                        Some(FloatAns::Bits(b)) => Ok(Object::Float(b)),
                        Some(_) => Err(Fatal::BadNumberLiteral(string.clone())),
                        None => Err(Fatal::FloatUnavailable(FloatOp::Parse(string.clone()))),
                    }
                } else {
                    match parse_integer(string) {
                        Some(v) => Ok(Object::Integer(v)),
                        None => Err(Fatal::BadNumberLiteral(string.clone())),
                    }
                }
            },
            Node::Identifier(name) => self.get_obj(name.as_str(), scope),
            Node::Literal(s, _d) => Ok(Object::Str(s.clone())),
            Node::Assignment(target, value) => {
                if let Some(nm) = as_identifier(target) {
                    let nm_owned = nm.clone();
                    proof {
                        assert(decreases_to!(*ast => *value));
                    }
                    match self.interpret(value, scope, fuel) {
                        Ok(v) => {
                            scope.insert(nm_owned.as_str(), v);
                            Ok(Object::Nil)
                        },
                        Err(e) => Err(e),
                    }
                } else if let Some(pair) = as_member_target(target) {
                    let field_owned = pair.1.clone();
                    proof {
                        assert(decreases_to!(*ast => *target));
                        assert(decreases_to!(*target => *pair.0)) by {
                            assert(*target == Node::Member(Box::new(*pair.0), *pair.1));
                        }
                        assert(decreases_to!(*ast => *value));
                    }
                    match self.interpret(pair.0, scope, fuel) {
                        Ok(o) => match self.interpret(value, scope, fuel) {
                            Ok(v) => match o {
                                Object::Class(h) | Object::Instance(h) => {
                                    if h < self.arena.len() {
                                        let ghost arena0 = self.arena.deep_view();
                                        let mut slot = clone_scope(&self.arena[h]);
                                        slot.insert(field_owned.as_str(), v);
                                        self.arena.set(h, slot);
                                        proof {
                                            assert(self.arena.deep_view() =~~= arena0.update(
                                                h as int,
                                                arena0[h as int].push(
                                                    (field_owned@, v.deep_view()),
                                                ),
                                            ));
                                        }
                                        Ok(Object::Nil)
                                    } else {
                                        proof {
                                            assert(self.arena.deep_view().len()
                                                == self.arena@.len());
                                        }
                                        Err(Fatal::Unevaluable)
                                    }
                                },
                                _ => Err(Fatal::BadAssignmentTarget),
                            },
                            Err(e) => Err(e),
                        },
                        Err(e) => Err(e),
                    }
                } else {
                    Err(Fatal::BadAssignmentTarget)
                }
            },
            Node::Addition(_l, _r) => self.interpret_arith(ArithOp::Add, ast, scope, fuel),
            Node::Substraction(_l, _r) => self.interpret_arith(ArithOp::Sub, ast, scope, fuel),
            Node::Multiplication(_l, _r) => self.interpret_arith(ArithOp::Mul, ast, scope, fuel),
            Node::Division(_l, _r) => self.interpret_arith(ArithOp::Div, ast, scope, fuel),
            Node::Modulus(_l, _r) => self.interpret_arith(ArithOp::Rem, ast, scope, fuel),
            Node::FunctionDefinition(params, body) => {
                let p = crate::node::clone_nodes(params);
                let b = crate::node::clone_nodes(body);
                Ok(Object::Function(p, b))
            },
            Node::Parenthesized(inner) => {
                proof {
                    assert(decreases_to!(*ast => *inner));
                }
                self.interpret(inner, scope, fuel)
            },
            Node::Call(callee, args) => {
                proof {
                    assert(decreases_to!(*ast => *callee));
                    assert(decreases_to!(*ast => *args));
                    assert(decreases_to!(*args => args@));
                }
                match self.interpret(callee, scope, fuel) {
                    Ok(c) => match self.interpret_args(args, scope, fuel) {
                        Ok(vals) => {
                            if fuel == 0 {
                                Err(Fatal::OutOfFuel)
                            } else {
                                self.interpret_call(c, vals, Object::Nil, fuel - 1)
                            }
                        },
                        Err(e) => Err(e),
                    },
                    Err(e) => Err(e),
                }
            },
            Node::Member(objexpr, field) => {
                proof {
                    assert(decreases_to!(*ast => *objexpr));
                }
                match self.interpret(objexpr, scope, fuel) {
                    Ok(o) => self.member_get_exec(o, field),
                    Err(e) => Err(e),
                }
            },
            Node::Match(subject, arms) => {
                proof {
                    assert(decreases_to!(*ast => *subject));
                    assert(decreases_to!(*ast => *arms));
                    assert(decreases_to!(*arms => arms@));
                }
                match self.interpret(subject, scope, fuel) {
                    Ok(s) => self.interpret_arms(&s, arms, scope, fuel),
                    Err(e) => Err(e),
                }
            },
            Node::ClassDefinition(name_node, body) => {
                if let Some(cname) = as_identifier(name_node) {
                    let cname_owned = cname.clone();
                    let sh = self.arena.len();
                    let ghost arena0 = self.arena.deep_view();
                    self.arena.push(Scope::new());
                    proof {
                        assert(self.arena.deep_view() =~~= arena0.push(
                            Seq::<(Seq<char>, ObjectView)>::empty(),
                        ));
                    }
                    let mut seeded = Scope::new();
                    seeded.insert("self", Object::Instance(sh));
                    proof {
                        assert(seeded@ =~~= seq![
                            ("self"@, ObjectView::Instance(sh as int)),
                        ]);
                        assert(decreases_to!(*ast => *body));
                    }
                    match self.interpret(body, &mut seeded, fuel) {
                        Ok(_) => {
                            let proto_base: Scope = match seeded.get("self") {
                                Some(found) => match as_instance_handle(&found) {
                                    Some(ih) => {
                                        proof {
                                            assert(self.arena.deep_view().len()
                                                == self.arena@.len());
                                        }
                                        if ih < self.arena.len() {
                                            clone_scope(&self.arena[ih])
                                        } else {
                                            Scope::new()
                                        }
                                    },
                                    None => Scope::new(),
                                },
                                None => Scope::new(),
                            };
                            let ph = self.arena.len();
                            if ph >= usize::MAX {
                                proof {
                                    assert(self.arena.deep_view().len() == self.arena@.len());
                                }
                                Err(Fatal::Unevaluable)
                            } else {
                                let ch = ph + 1;
                                let mut proto = proto_base;
                                proto.insert("$class", Object::Class(ch));
                                let mut class_fields = non_self_exec(&seeded);
                                class_fields.insert("$prototype", Object::Instance(ph));
                                let ghost arena1 = self.arena.deep_view();
                                self.arena.push(proto);
                                let ghost arena2 = self.arena.deep_view();
                                self.arena.push(class_fields);
                                proof {
                                    assert(arena2 =~~= arena1.push(self.arena@[ph as int]@));
                                    assert(self.arena.deep_view() =~~= arena2.push(
                                        self.arena@[ch as int]@,
                                    ));
                                }
                                scope.insert(cname_owned.as_str(), Object::Class(ch));
                                Ok(Object::Nil)
                            }
                        },
                        Err(e) => Err(e),
                    }
                } else {
                    Ok(Object::Nil)
                }
            },
            Node::EnumDefinition(name_node, variants) => {
                if let Some(ename) = as_identifier(name_node) {
                    let ename_owned = ename.clone();
                    match idents_of_exec(variants) {
                        Some(names) => {
                            scope.insert(ename_owned.as_str(), Object::Enum(
                                ename_owned.clone(),
                                names,
                            ));
                            Ok(Object::Nil)
                        },
                        None => Err(Fatal::Unevaluable),
                    }
                } else {
                    Ok(Object::Nil)
                }
            },
            Node::PartialCall(_, _) => Err(Fatal::Unevaluable),
            Node::PartialMember(_) => Err(Fatal::Unevaluable),
            Node::PartialParenthesized(_) => Err(Fatal::Unevaluable),
            Node::FunctionArgs(_) => Err(Fatal::Unevaluable),
            Node::PartialFunctionDefinition(_, _) => Err(Fatal::Unevaluable),
            Node::UnnamedEnumDefinition => Err(Fatal::Unevaluable),
            Node::NamedEnumDefinition(_) => Err(Fatal::Unevaluable),
            Node::PartialEnumDefinition(_, _) => Err(Fatal::Unevaluable),
            Node::UnnamedClassDefinition => Err(Fatal::Unevaluable),
            Node::NamedClassDefinition(_) => Err(Fatal::Unevaluable),
            Node::PartialClassDefinition(_, _) => Err(Fatal::Unevaluable),
            Node::PartialMatch(_, _) => Err(Fatal::Unevaluable),
            Node::UnopenedMatch(_) => Err(Fatal::Unevaluable),
            Node::UnopenedMatchArm(_) => Err(Fatal::Unevaluable),
            Node::MatchArmWithoutColon(_) => Err(Fatal::Unevaluable),
            Node::PartialMatchArm(_, _) => Err(Fatal::Unevaluable),
            Node::MatchArm(_, _) => Err(Fatal::Unevaluable),
            Node::Empty => Err(Fatal::Unevaluable),
        }
    }

    /// The evaluation of a binary arithmetic node: left operand, right
    /// operand, then the numeric rules with promotion.
    fn interpret_arith(&mut self, op: ArithOp, ast: &Node, scope: &mut Scope, fuel: u64) -> (r:
        Result<Object, Fatal>)
        requires
            ast matches Node::Addition(_a, _b) || ast matches Node::Substraction(_a, _b)
                || ast matches Node::Multiplication(_a, _b) || ast matches Node::Division(_a, _b)
                || ast matches Node::Modulus(_a, _b),
        ensures
            ({
                let out = eval_arith(fuel as nat, op, ast.deep_view(), old(self)@, old(scope)@);
                final(self)@ == out.env && final(scope)@ == out.scope && res_view(r) == out.res
            }),
        decreases fuel, *ast, 1int,
    {
        match ast {
            Node::Addition(l, r)
            | Node::Substraction(l, r)
            | Node::Multiplication(l, r)
            | Node::Division(l, r)
            | Node::Modulus(l, r) => {
                proof {
                    assert(decreases_to!(*ast => *l));
                    assert(decreases_to!(*ast => *r));
                }
                match self.interpret(l, scope, fuel) {
                    Ok(x) => match self.interpret(r, scope, fuel) {
                        Ok(y) => arith_exec(op, &x, &y, &self.floats),
                        Err(e) => Err(e),
                    },
                    Err(e) => Err(e),
                }
            },
            _ => Err(Fatal::Unevaluable),
        }
    }

    /// The evaluation of statements in order: the result is the last
    /// statement's value, `None` when there are none.
    fn interpret_stmts(&mut self, nodes: &Vec<Node>, scope: &mut Scope, fuel: u64) -> (r: Result<
        Object,
        Fatal,
    >)
        ensures
            ({
                let out = eval_stmts(
                    fuel as nat,
                    crate::node::view_nodes(nodes@),
                    old(self)@,
                    old(scope)@,
                    ObjectView::Nil,
                );
                final(self)@ == out.env && final(scope)@ == out.scope && res_view(r) == out.res
            }),
        decreases fuel, nodes@, 1int,
    {
        let ghost nv = crate::node::view_nodes(nodes@);
        let ghost env0 = self@;
        let ghost scope0 = scope@;
        let mut acc = Object::Nil;
        let mut error: Option<Fatal> = None;
        let n = nodes.len();
        let mut i: usize = 0;
        proof {
            crate::node::lemma_view_nodes_len(nodes@);
            assert(nv.skip(0) =~= nv);
        }
        while i < n && error.is_none()
            invariant
                0 <= i <= n,
                n == nodes@.len(),
                nv == crate::node::view_nodes(nodes@),
                nv.len() == n,
                match error {
                    Option::None => eval_stmts(fuel as nat, nv, env0, scope0, ObjectView::Nil)
                        == eval_stmts(
                        fuel as nat,
                        nv.skip(i as int),
                        self@,
                        scope@,
                        acc.deep_view(),
                    ),
                    Option::Some(e) => eval_stmts(fuel as nat, nv, env0, scope0, ObjectView::Nil)
                        == (EvalOut { env: self@, scope: scope@, res: Err(e.deep_view()) }),
                },
            decreases n - i, (match error {
                Option::None => 1int,
                Option::Some(_) => 0int,
            }),
        {
            proof {
                crate::node::lemma_view_nodes_index(nodes@, i as int);
                assert(nv.skip(i as int).first() == nv[i as int]);
                assert(nv.skip(i as int).drop_first() =~= nv.skip(i as int + 1));
                assert(decreases_to!(nodes@ => nodes@[i as int]));
            }
            match self.interpret(&nodes[i], scope, fuel) {
                Ok(v) => {
                    acc = v;
                    i = i + 1;
                },
                Err(e) => {
                    error = Some(e);
                },
            }
        }
        match error {
            Some(e) => Err(e),
            None => {
                proof {
                    assert(nv.skip(n as int) =~= Seq::<NodeView>::empty());
                }
                Ok(acc)
            },
        }
    }

    /// The evaluation of call arguments, left to right.
    fn interpret_args(&mut self, args: &Vec<Node>, scope: &mut Scope, fuel: u64) -> (r: Result<
        Vec<Object>,
        Fatal,
    >)
        ensures
            ({
                let out = eval_args(
                    fuel as nat,
                    crate::node::view_nodes(args@),
                    old(self)@,
                    old(scope)@,
                );
                final(self)@ == out.env && final(scope)@ == out.scope && (match r {
                    Ok(vals) => out.res == Ok::<Seq<ObjectView>, FatalView>(vals.deep_view()),
                    Err(e) => out.res == Err::<Seq<ObjectView>, FatalView>(e.deep_view()),
                })
            }),
        decreases fuel, args@, 1int,
    {
        let ghost nv = crate::node::view_nodes(args@);
        let ghost env0 = self@;
        let ghost scope0 = scope@;
        let mut vals: Vec<Object> = Vec::new();
        let mut error: Option<Fatal> = None;
        let n = args.len();
        let mut i: usize = 0;
        proof {
            crate::node::lemma_view_nodes_len(args@);
            assert(nv.skip(0) =~= nv);
            assert(vals.deep_view() =~~= Seq::<ObjectView>::empty());
        }
        while i < n && error.is_none()
            invariant
                0 <= i <= n,
                n == args@.len(),
                nv == crate::node::view_nodes(args@),
                nv.len() == n,
                match error {
                    Option::None => ({
                        let full = eval_args(fuel as nat, nv, env0, scope0);
                        let tail = eval_args(fuel as nat, nv.skip(i as int), self@, scope@);
                        full.env == tail.env && full.scope == tail.scope && (match tail.res {
                            Ok(vs) => full.res == Ok::<Seq<ObjectView>, FatalView>(
                                vals.deep_view() + vs,
                            ),
                            Err(e) => full.res == Err::<Seq<ObjectView>, FatalView>(e),
                        })
                    }),
                    Option::Some(e) => ({
                        let full = eval_args(fuel as nat, nv, env0, scope0);
                        full.env == self@ && full.scope == scope@ && full.res == Err::<
                            Seq<ObjectView>,
                            FatalView,
                        >(e.deep_view())
                    }),
                },
            decreases n - i, (match error {
                Option::None => 1int,
                Option::Some(_) => 0int,
            }),
        {
            proof {
                crate::node::lemma_view_nodes_index(args@, i as int);
                assert(nv.skip(i as int).first() == nv[i as int]);
                assert(nv.skip(i as int).drop_first() =~= nv.skip(i as int + 1));
                assert(decreases_to!(args@ => args@[i as int]));
            }
            let ghost vals_before = vals.deep_view();
            match self.interpret(&args[i], scope, fuel) {
                Ok(v) => {
                    vals.push(v);
                    proof {
                        assert(vals.deep_view() =~~= vals_before.push(
                            vals@[vals@.len() - 1].deep_view(),
                        ));
                        let tail = eval_args(fuel as nat, nv.skip(i as int + 1), self@, scope@);
                        match tail.res {
                            Ok(vs) => {
                                assert(vals_before + (seq![vals.deep_view().last()] + vs)
                                    =~~= vals.deep_view() + vs);
                            },
                            Err(_) => {},
                        }
                    }
                    i = i + 1;
                },
                Err(e) => {
                    error = Some(e);
                },
            }
        }
        match error {
            Some(e) => Err(e),
            None => {
                proof {
                    assert(nv.skip(n as int) =~= Seq::<NodeView>::empty());
                    assert(vals.deep_view() + Seq::<ObjectView>::empty() =~~= vals.deep_view());
                }
                Ok(vals)
            },
        }
    }

    /// The scan of match arms in declaration order.
    fn interpret_arms(
        &mut self,
        subject: &Object,
        arms: &Vec<Node>,
        scope: &mut Scope,
        fuel: u64,
    ) -> (r: Result<Object, Fatal>)
        ensures
            ({
                let out = eval_arms(
                    fuel as nat,
                    subject.deep_view(),
                    crate::node::view_nodes(arms@),
                    old(self)@,
                    old(scope)@,
                );
                final(self)@ == out.env && final(scope)@ == out.scope && res_view(r) == out.res
            }),
        decreases fuel, arms@, 1int,
    {
        let ghost nv = crate::node::view_nodes(arms@);
        let ghost env0 = self@;
        let ghost scope0 = scope@;
        let ghost sv = subject.deep_view();
        let mut outcome: Option<Result<Object, Fatal>> = None;
        let n = arms.len();
        let mut i: usize = 0;
        proof {
            crate::node::lemma_view_nodes_len(arms@);
            assert(nv.skip(0) =~= nv);
        }
        while i < n && outcome.is_none()
            invariant
                0 <= i <= n,
                n == arms@.len(),
                nv == crate::node::view_nodes(arms@),
                nv.len() == n,
                sv == subject.deep_view(),
                match outcome {
                    Option::None => eval_arms(fuel as nat, sv, nv, env0, scope0) == eval_arms(
                        fuel as nat,
                        sv,
                        nv.skip(i as int),
                        self@,
                        scope@,
                    ),
                    Option::Some(res) => eval_arms(fuel as nat, sv, nv, env0, scope0) == (EvalOut {
                        env: self@,
                        scope: scope@,
                        res: res_view(res),
                    }),
                },
            decreases n - i, (match outcome {
                Option::None => 1int,
                Option::Some(_) => 0int,
            }),
        {
            proof {
                crate::node::lemma_view_nodes_index(arms@, i as int);
                assert(nv.skip(i as int).first() == nv[i as int]);
                assert(nv.skip(i as int).drop_first() =~= nv.skip(i as int + 1));
            }
            match as_match_arm(&arms[i]) {
                Some(pair) => {
                    proof {
                        assert(decreases_to!(arms@ => arms@[i as int]));
                        assert(arms@[i as int] == Node::MatchArm(
                            Box::new(*pair.0),
                            Box::new(*pair.1),
                        ));
                        assert(decreases_to!(arms@[i as int] => *pair.0));
                        assert(decreases_to!(arms@[i as int] => *pair.1));
                    }
                    match self.interpret(pair.0, scope, fuel) {
                        Ok(mv) => {
                            if match_values(subject, &mv) {
                                let res = self.interpret(pair.1, scope, fuel);
                                outcome = Some(res);
                            } else {
                                i = i + 1;
                            }
                        },
                        Err(e) => {
                            outcome = Some(Err(e));
                        },
                    }
                },
                None => {
                    i = i + 1;
                },
            }
        }
        match outcome {
            Some(res) => res,
            None => {
                proof {
                    assert(nv.skip(n as int) =~= Seq::<NodeView>::empty());
                }
                Ok(Object::Nil)
            },
        }
    }

    /// Member lookup on an evaluated object.
    fn member_get_exec(&self, o: Object, field: &String) -> (r: Result<Object, Fatal>)
        ensures
            res_view(r) == member_get(o.deep_view(), field@, self@),
    {
        match o {
            Object::Enum(ename, vs) => {
                if contains_string(&vs, field) {
                    Ok(Object::EnumVariant(ename, field.clone()))
                } else {
                    let mut m = lit_string("Variant ");
                    m.append(field.as_str());
                    m.append(" does not exist for enum ");
                    m.append(ename.as_str());
                    proof {
                        assert(m@ =~= variant_error_msg(field@, ename@));
                    }
                    Ok(Object::Error(m))
                }
            },
            Object::Class(h) => {
                proof {
                    assert(self.arena.deep_view().len() == self.arena@.len());
                }
                if h < self.arena.len() {
                    match self.arena[h].get(field.as_str()) {
                        None => Err(Fatal::UnknownField(field.clone())),
                        Some(f) => {
                            if is_function_obj(&f) {
                                Ok(Object::BoundFunction(
                                    Box::new(Object::Class(h)),
                                    Box::new(f),
                                ))
                            } else {
                                Ok(f)
                            }
                        },
                    }
                } else {
                    Err(Fatal::Unevaluable)
                }
            },
            Object::Instance(h) => {
                proof {
                    assert(self.arena.deep_view().len() == self.arena@.len());
                }
                if h < self.arena.len() {
                    match self.arena[h].get(field.as_str()) {
                        None => Err(Fatal::UnknownField(field.clone())),
                        Some(f) => {
                            if is_function_obj(&f) {
                                Ok(Object::BoundFunction(
                                    Box::new(Object::Instance(h)),
                                    Box::new(f),
                                ))
                            } else {
                                Ok(f)
                            }
                        },
                    }
                } else {
                    Err(Fatal::Unevaluable)
                }
            },
            Object::Nil => Err(Fatal::BadMemberAccess),
            Object::Integer(_) => Err(Fatal::BadMemberAccess),
            Object::Float(_) => Err(Fatal::BadMemberAccess),
            Object::Error(_) => Err(Fatal::BadMemberAccess),
            Object::Str(_) => Err(Fatal::BadMemberAccess),
            Object::Native(_, _) => Err(Fatal::BadMemberAccess),
            Object::EnumVariant(_, _) => Err(Fatal::BadMemberAccess),
            Object::Function(_, _) => Err(Fatal::BadMemberAccess),
            Object::BoundFunction(_, _) => Err(Fatal::BadMemberAccess),
        }
    }

    /// The dispatch of a call on an evaluated callee.
    fn interpret_call(
        &mut self,
        callee: Object,
        vals: Vec<Object>,
        recv: Object,
        fuel: u64,
    ) -> (r: Result<Object, Fatal>)
        ensures
            ({
                let out = eval_call(
                    fuel as nat,
                    callee.deep_view(),
                    vals.deep_view(),
                    recv.deep_view(),
                    old(self)@,
                );
                final(self)@ == out.0 && res_view(r) == out.1
            }),
        decreases fuel, callee, 2int,
    {
        match callee {
            Object::Native(lib, sym) => {
                let print_name = lit_string("print");
                if sym == print_name {
                    match self.render_args(&vals) {
                        Ok(lines) => {
                            let ghost out0 = self.output.deep_view();
                            let ghost lines0 = lines.deep_view();
                            let mut k: usize = 0;
                            let m = lines.len();
                            let mut rest = lines;
                            proof {
                                assert(lines0.take(0) =~= Seq::<Seq<char>>::empty());
                                assert(out0 + lines0.take(0) =~~= out0);
                            }
                            while k < m
                                invariant
                                    0 <= k <= m,
                                    m == rest@.len(),
                                    rest.deep_view() == lines0,
                                    self.output.deep_view() =~~= out0 + lines0.take(k as int),
                                    self.natives@ == old(self).natives@,
                                    self.arena.deep_view() == old(self).arena.deep_view(),
                                    self.floats@ == old(self).floats@,
                                decreases m - k,
                            {
                                let line = rest[k].clone();
                                let ghost before = self.output.deep_view();
                                self.output.push(line);
                                proof {
                                    assert(self.output.deep_view() =~~= before.push(
                                        self.output@.last()@,
                                    ));
                                    assert(lines0.take(k as int + 1) =~= lines0.take(
                                        k as int,
                                    ).push(lines0[k as int]));
                                    assert(self.output.deep_view() =~~= out0 + lines0.take(
                                        k as int + 1,
                                    ));
                                }
                                k = k + 1;
                            }
                            proof {
                                assert(lines0.take(m as int) =~= lines0);
                            }
                            Ok(Object::Nil)
                        },
                        Err(e) => Err(e),
                    }
                } else {
                    Err(Fatal::NoSuchNative(lib, sym))
                }
            },
            Object::Function(params, body) => {
                match bind_params_exec(&params, &vals) {
                    Ok(mut fresh) => {
                        fresh.insert("self", recv);
                        if fuel == 0 {
                            Err(Fatal::OutOfFuel)
                        } else {
                            proof {
                                assert(decreases_to!(*&body => body@));
                            }
                            self.interpret_stmts(&body, &mut fresh, fuel - 1)
                        }
                    },
                    Err(e) => Err(e),
                }
            },
            Object::BoundFunction(r2, f2) => {
                proof {
                    assert(decreases_to!(callee => *f2));
                }
                self.interpret_call(*f2, vals, *r2, fuel)
            },
            Object::Class(h) => {
                proof {
                    assert(self.arena.deep_view().len() == self.arena@.len());
                }
                if h < self.arena.len() {
                    match self.arena[h].get("$prototype") {
                        None => Err(Fatal::UnknownField(lit_string("$prototype"))),
                        Some(p) => match as_instance_handle(&p) {
                            Some(ph) => {
                                if ph < self.arena.len() {
                                    let copy = clone_scope(&self.arena[ph]);
                                    let nh = self.arena.len();
                                    let ghost arena0 = self.arena.deep_view();
                                    self.arena.push(copy);
                                    proof {
                                        assert(self.arena.deep_view() =~~= arena0.push(
                                            arena0[ph as int],
                                        ));
                                    }
                                    Ok(Object::Instance(nh))
                                } else {
                                    Err(Fatal::Unevaluable)
                                }
                            },
                            None => Ok(p),
                        },
                    }
                } else {
                    Err(Fatal::Unevaluable)
                }
            },
            Object::Nil => Err(Fatal::NotCallable),
            Object::Integer(_) => Err(Fatal::NotCallable),
            Object::Float(_) => Err(Fatal::NotCallable),
            Object::Error(_) => Err(Fatal::NotCallable),
            Object::Str(_) => Err(Fatal::NotCallable),
            Object::Enum(_, _) => Err(Fatal::NotCallable),
            Object::EnumVariant(_, _) => Err(Fatal::NotCallable),
            Object::Instance(_) => Err(Fatal::NotCallable),
        }
    }

    /// The renderings of each printed argument, in order.
    fn render_args(&self, vals: &Vec<Object>) -> (r: Result<Vec<String>, Fatal>)
        ensures
            match r {
                Ok(lines) => render_all(vals.deep_view(), self@.floats) == Ok::<
                    Seq<Seq<char>>,
                    FatalView,
                >(lines.deep_view()),
                Err(e) => render_all(vals.deep_view(), self@.floats) == Err::<
                    Seq<Seq<char>>,
                    FatalView,
                >(e.deep_view()),
            },
    {
        let ghost vv = vals.deep_view();
        let mut lines: Vec<String> = Vec::new();
        let n = vals.len();
        let mut i: usize = 0;
        proof {
            assert(vv.skip(0) =~= vv);
            assert(lines.deep_view() =~~= Seq::<Seq<char>>::empty());
        }
        while i < n
            invariant
                0 <= i <= n,
                n == vals@.len(),
                vv == vals.deep_view(),
                vv.len() == n,
                ({
                    let full = render_all(vv, self@.floats);
                    match render_all(vv.skip(i as int), self@.floats) {
                        Ok(rest) => full == Ok::<Seq<Seq<char>>, FatalView>(
                            lines.deep_view() + rest,
                        ),
                        Err(e) => full == Err::<Seq<Seq<char>>, FatalView>(e),
                    }
                }),
            decreases n - i,
        {
            proof {
                assert(vv.skip(i as int).first() == vv[i as int]);
                assert(vv[i as int] == vals@[i as int].deep_view());
                assert(vv.skip(i as int).drop_first() =~= vv.skip(i as int + 1));
            }
            let ghost lines_before = lines.deep_view();
            match vals[i].to_string(&self.floats) {
                Ok(line) => {
                    lines.push(line);
                    proof {
                        assert(lines.deep_view() =~~= lines_before.push(lines@.last()@));
                        match render_all(vv.skip(i as int + 1), self@.floats) {
                            Ok(rest) => {
                                assert(lines_before + (seq![lines.deep_view().last()] + rest)
                                    =~~= lines.deep_view() + rest);
                            },
                            Err(_) => {},
                        }
                    }
                },
                Err(e) => {
                    return Err(e);
                },
            }
            i = i + 1;
        }
        proof {
            assert(vv.skip(n as int) =~= Seq::<ObjectView>::empty());
            assert(lines.deep_view() + Seq::<Seq<char>>::empty() =~~= lines.deep_view());
        }
        Ok(lines)
    }
}

impl Object {
    /// Member lookup on this object against the environment's arena: a
    /// field hit returns the value, a function field is wrapped into a
    /// bound function pairing it with this receiver, and an enum resolves
    /// variant names.
    pub fn get(&self, env: &Env, name: &String) -> (r: Result<Object, Fatal>)
        ensures
            res_view(r) == member_get(self.deep_view(), name@, env@),
    {
        env.member_get_exec(self.clone(), name)
    }
}

/// The class-field bindings of a class-body scope: every binding except
/// those of `self`, in order.
fn non_self_exec(s: &Scope) -> (r: Scope)
    ensures
        r@ == non_self_bindings(s@),
{
    let self_name = lit_string("self");
    let n = s.entries.len();
    let mut i: usize = 0;
    let mut out = Scope { entries: Vec::new() };
    proof {
        assert(s@.take(0) =~= Seq::<(Seq<char>, ObjectView)>::empty());
        assert(out@ =~~= non_self_bindings(s@.take(0)));
    }
    while i < n
        invariant
            0 <= i <= n,
            n == s.entries@.len(),
            n == s@.len(),
            self_name@ == "self"@,
            out@ == non_self_bindings(s@.take(i as int)),
        decreases n - i,
    {
        proof {
            assert(s@.take(i as int + 1).drop_last() =~= s@.take(i as int));
            assert(s@.take(i as int + 1).len() == i + 1);
            assert(s@.take(i as int + 1)[i as int] == s@[i as int]);
            assert(s@.take(i as int + 1).last() == s@[i as int]);
            assert(s@[i as int] == (s.entries@[i as int].0@, s.entries@[i as int].1.deep_view()));
        }
        let entry = &s.entries[i];
        if !(entry.0 == self_name) {
            let name = entry.0.clone();
            let obj = entry.1.clone();
            out.insert(name.as_str(), obj);
        }
        i = i + 1;
    }
    proof {
        assert(s@.take(n as int) =~= s@);
    }
    out
}

fn contains_string(v: &Vec<String>, s: &String) -> (r: bool)
    ensures
        r == v.deep_view().contains(s@),
{
    let n = v.len();
    let mut i: usize = 0;
    while i < n
        invariant
            0 <= i <= n,
            n == v@.len(),
            forall|k: int| 0 <= k < i ==> (#[trigger] v.deep_view()[k]) != s@,
        decreases n - i,
    {
        if v[i] == *s {
            proof {
                assert(v.deep_view()[i as int] == s@);
            }
            return true;
        }
        i = i + 1;
    }
    proof {
        assert(forall|k: int| 0 <= k < v.deep_view().len() ==> (#[trigger] v.deep_view()[k]) != s@);
        if v.deep_view().contains(s@) {
            let w = choose|j: int| 0 <= j < v.deep_view().len() && v.deep_view()[j] == s@;
            assert(v.deep_view()[w] == s@);
        }
    }
    false
}

/// The state of a fresh environment: the native `print` binding, an
/// empty arena, no output, and the given recorded floating-point
/// answers.
pub open spec fn fresh_env_view(floats: Seq<(FloatOpView, FloatAnsView)>) -> EnvView {
    EnvView {
        natives: seq![
            ("print"@, ObjectView::Native("../std/target/release/libstd.so"@, "print"@)),
        ],
        arena: Seq::empty(),
        output: Seq::empty(),
        floats,
    }
}

/// What one whole run produces: the program's result value or fatal
/// error, and the lines printed along the way.
#[derive(Debug)]
pub struct RunOutcome {
    pub result: Result<Object, Fatal>,
    pub output: Vec<String>,
}

/// Interprets a finished syntax tree against a fresh environment and an
/// empty scope, with the given recorded floating-point answers.
pub fn interpret_with_floats(ast: Node, floats: FloatTable) -> (r: RunOutcome)
    ensures
        ({
            let out = eval_node(
                u64::MAX as nat,
                ast.deep_view(),
                fresh_env_view(floats@),
                Seq::empty(),
            );
            res_view(r.result) == out.res && r.output.deep_view() == out.env.output
        }),
{
    let ghost fv = floats@;
    let mut env = Env::with_floats(floats);
    let mut scope = Scope::new();
    proof {
        assert(env@ == fresh_env_view(fv)) by {
            assert(env@.natives =~~= fresh_env_view(fv).natives);
            assert(env@.arena =~~= fresh_env_view(fv).arena);
            assert(env@.output =~~= fresh_env_view(fv).output);
        }
        assert(scope@ =~~= Seq::<(Seq<char>, ObjectView)>::empty());
    }
    let result = env.interpret(&ast, &mut scope, u64::MAX);
    RunOutcome { result, output: env.output }
}

/// Interprets a finished syntax tree against a fresh environment and an
/// empty scope, with no recorded floating-point answers.
pub fn interpret(ast: Node) -> (r: RunOutcome)
    ensures
        ({
            let out = eval_node(
                u64::MAX as nat,
                ast.deep_view(),
                fresh_env_view(Seq::empty()),
                Seq::empty(),
            );
            res_view(r.result) == out.res && r.output.deep_view() == out.env.output
        }),
{
    let floats = FloatTable::new();
    let ghost fv = floats@;
    proof {
        assert(fv =~= Seq::<(FloatOpView, FloatAnsView)>::empty());
    }
    interpret_with_floats(ast, floats)
}

/// Law: resolving an identifier bound neither in the scope nor among the
/// natives is a fatal lookup error naming the identifier, and changes
/// nothing.
pub proof fn lemma_unknown_identifier_fatal(
    fuel: nat,
    name: Seq<char>,
    env: EnvView,
    scope: Seq<(Seq<char>, ObjectView)>,
)
    requires
        lookup_binding(scope, name) is None,
        lookup_binding(env.natives, name) is None,
    ensures
        eval_node(fuel, NodeView::Identifier(name), env, scope) == (EvalOut {
            env,
            scope,
            res: Err(FatalView::UnknownIdentifier(name)),
        }),
{
}

/// The name of an identifier parameter.
pub open spec fn param_name(p: NodeView) -> Seq<char> {
    match p {
        NodeView::Identifier(nm) => nm,
        _ => Seq::empty(),
    }
}

/// Law: a call's fresh scope binds each parameter, in order, to the
/// argument in the same position, and a parameter past the end of the
/// argument list to `None`; arguments past the end of the parameter list
/// are ignored and bind nothing.
pub proof fn lemma_call_binding(params: Seq<NodeView>, args: Seq<ObjectView>)
    requires
        forall|i: int| 0 <= i < params.len() ==> (#[trigger] params[i]) is Identifier,
    ensures
        bind_params(params, args) == Ok::<Seq<(Seq<char>, ObjectView)>, FatalView>(
            Seq::new(
                params.len(),
                |i: int|
                    (
                        param_name(params[i]),
                        if i < args.len() {
                            args[i]
                        } else {
                            ObjectView::Nil
                        },
                    ),
            ),
        ),
    decreases params.len(),
{
    let expected = Seq::new(
        params.len(),
        |i: int|
            (
                param_name(params[i]),
                if i < args.len() {
                    args[i]
                } else {
                    ObjectView::Nil
                },
            ),
    );
    if params.len() == 0 {
        assert(expected =~= Seq::<(Seq<char>, ObjectView)>::empty());
    } else {
        assert(forall|i: int|
            0 <= i < params.drop_last().len() ==> (#[trigger] params.drop_last()[i])
                is Identifier);
        lemma_call_binding(params.drop_last(), args);
        let prev = Seq::new(
            params.drop_last().len(),
            |i: int|
                (
                    param_name(params.drop_last()[i]),
                    if i < args.len() {
                        args[i]
                    } else {
                        ObjectView::Nil
                    },
                ),
        );
        assert(params.last() is Identifier);
        assert(expected =~= prev.push(
            (
                param_name(params.last()),
                if params.len() - 1 < args.len() {
                    args[params.len() - 1]
                } else {
                    ObjectView::Nil
                },
            ),
        ));
    }
}

} // verus!
