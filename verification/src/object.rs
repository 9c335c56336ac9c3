use vstd::prelude::*;
use crate::node::{clone_nodes, view_nodes, Node, NodeView};

verus! {

/// One arithmetic or conversion step on floating-point values, identified
/// by the operand bit patterns (IEEE-754 doubles) or literal text. The
/// library holds floating-point values only as opaque bit patterns; the
/// results of these steps are supplied from outside through a
/// `FloatTable`.
#[derive(Clone, Debug, PartialEq)]
pub enum FloatOp {
    /// Parse a numeric literal into a bit pattern.
    Parse(String),
    /// Convert an integer into a bit pattern.
    FromInt(i64),
    Add(u64, u64),
    Sub(u64, u64),
    Mul(u64, u64),
    Div(u64, u64),
    Rem(u64, u64),
    /// Render a bit pattern as decimal text.
    Print(u64),
}

/// The model of a `FloatOp`.
pub enum FloatOpView {
    Parse(Seq<char>),
    FromInt(i64),
    Add(u64, u64),
    Sub(u64, u64),
    Mul(u64, u64),
    Div(u64, u64),
    Rem(u64, u64),
    Print(u64),
}

impl DeepView for FloatOp {
    type V = FloatOpView;

    open spec fn deep_view(&self) -> FloatOpView {
        match self {
            FloatOp::Parse(s) => FloatOpView::Parse(s@),
            FloatOp::FromInt(i) => FloatOpView::FromInt(*i),
            FloatOp::Add(a, b) => FloatOpView::Add(*a, *b),
            FloatOp::Sub(a, b) => FloatOpView::Sub(*a, *b),
            FloatOp::Mul(a, b) => FloatOpView::Mul(*a, *b),
            FloatOp::Div(a, b) => FloatOpView::Div(*a, *b),
            FloatOp::Rem(a, b) => FloatOpView::Rem(*a, *b),
            FloatOp::Print(b) => FloatOpView::Print(*b),
        }
    }
}

/// The answer recorded for one `FloatOp`: a result bit pattern, rendered
/// text, or the mark that the operation has no result (a literal that is
/// no number).
#[derive(Clone, Debug, PartialEq)]
pub enum FloatAns {
    Bits(u64),
    Text(String),
    Invalid,
}

/// The model of a `FloatAns`.
pub enum FloatAnsView {
    Bits(u64),
    Text(Seq<char>),
    Invalid,
}

impl DeepView for FloatAns {
    type V = FloatAnsView;

    open spec fn deep_view(&self) -> FloatAnsView {
        match self {
            FloatAns::Bits(b) => FloatAnsView::Bits(*b),
            FloatAns::Text(s) => FloatAnsView::Text(s@),
            FloatAns::Invalid => FloatAnsView::Invalid,
        }
    }
}

/// Recorded answers to floating-point operations, consulted by the
/// interpreter. The caller that drives the interpreter performs the
/// operations on real doubles and records each answer here; every
/// floating-point result the interpreter returns is read from this table.
#[derive(Debug)]
pub struct FloatTable {
    pub entries: Vec<(FloatOp, FloatAns)>,
}

/// The recorded answer for `op`, with the earliest entry winning.
pub open spec fn float_lookup(entries: Seq<(FloatOpView, FloatAnsView)>, op: FloatOpView) -> Option<
    FloatAnsView,
>
    decreases entries.len(),
{
    if entries.len() == 0 {
        None
    } else if entries.first().0 == op {
        Some(entries.first().1)
    } else {
        float_lookup(entries.drop_first(), op)
    }
}

impl View for FloatTable {
    type V = Seq<(FloatOpView, FloatAnsView)>;

    open spec fn view(&self) -> Seq<(FloatOpView, FloatAnsView)> {
        self.entries.deep_view()
    }
}

fn string_eq(a: &String, b: &String) -> (r: bool)
    ensures
        r == (a@ == b@),
{
    *a == *b
}

fn float_op_eq(a: &FloatOp, b: &FloatOp) -> (r: bool)
    ensures
        r == (a.deep_view() == b.deep_view()),
{
    match (a, b) {
        (FloatOp::Parse(x), FloatOp::Parse(y)) => string_eq(x, y),
        (FloatOp::FromInt(x), FloatOp::FromInt(y)) => x == y,
        (FloatOp::Add(x1, x2), FloatOp::Add(y1, y2)) => x1 == y1 && x2 == y2,
        (FloatOp::Sub(x1, x2), FloatOp::Sub(y1, y2)) => x1 == y1 && x2 == y2,
        (FloatOp::Mul(x1, x2), FloatOp::Mul(y1, y2)) => x1 == y1 && x2 == y2,
        (FloatOp::Div(x1, x2), FloatOp::Div(y1, y2)) => x1 == y1 && x2 == y2,
        (FloatOp::Rem(x1, x2), FloatOp::Rem(y1, y2)) => x1 == y1 && x2 == y2,
        (FloatOp::Print(x), FloatOp::Print(y)) => x == y,
        _ => false,
    }
}

fn clone_float_ans(a: &FloatAns) -> (r: FloatAns)
    ensures
        r.deep_view() == a.deep_view(),
{
    match a {
        FloatAns::Bits(b) => FloatAns::Bits(*b),
        FloatAns::Text(s) => FloatAns::Text(s.clone()),
        FloatAns::Invalid => FloatAns::Invalid,
    }
}

impl FloatTable {
    /// A table with no recorded answers.
    pub fn new() -> (r: FloatTable)
        ensures
            r@ =~= Seq::<(FloatOpView, FloatAnsView)>::empty(),
    {
        FloatTable { entries: Vec::new() }
    }

    /// Records an answer at the end of the table.
    pub fn push(&mut self, op: FloatOp, ans: FloatAns)
        ensures
            final(self)@ =~~= old(self)@.push((op.deep_view(), ans.deep_view())),
    {
        let ghost before = self.entries.deep_view();
        self.entries.push((op, ans));
        proof {
            assert(self.entries.deep_view() =~~= before.push(
                (self.entries@.last().0.deep_view(), self.entries@.last().1.deep_view()),
            ));
        }
    }

    /// The recorded answer for `op`, if any.
    pub fn lookup(&self, op: &FloatOp) -> (r: Option<FloatAns>)
        ensures
            match r {
                Some(a) => float_lookup(self@, op.deep_view()) == Some(a.deep_view()),
                None => float_lookup(self@, op.deep_view()) is None,
            },
    {
        let n = self.entries.len();
        let mut i: usize = 0;
        proof {
            assert(self@.skip(0) =~= self@);
        }
        while i < n
            invariant
                0 <= i <= n,
                n == self.entries@.len(),
                float_lookup(self@, op.deep_view()) == float_lookup(
                    self@.skip(i as int),
                    op.deep_view(),
                ),
        decreases n - i,
        {
            proof {
                assert(self@.skip(i as int).first() == self@[i as int]);
                assert(self@[i as int] == (self.entries@[i as int].0.deep_view(), self.entries@[
                    i as int].1.deep_view()));
                assert(self@.skip(i as int).drop_first() =~= self@.skip(i as int + 1));
            }
            let entry = &self.entries[i];
            if float_op_eq(&entry.0, op) {
                return Some(clone_float_ans(&entry.1));
            }
            i = i + 1;
        }
        proof {
            assert(self@.skip(n as int) =~= Seq::<(FloatOpView, FloatAnsView)>::empty());
        }
        None
    }
}

/// A runtime value produced by interpretation.
///
/// `Float` holds the IEEE-754 bit pattern of a double-precision value as
/// an opaque quantity: the interpreter moves such values around and
/// consults a `FloatTable` for any arithmetic on them. `Class` and
/// `Instance` hold handles into the interpreter's arena of field maps, so
/// that a field written through one reference is seen through every
/// reference to the same object. `EnumVariant` keeps the enum name and
/// the variant name; its qualified name joins them with a period.
#[derive(Debug, PartialEq)]
pub enum Object {
    Nil,
    Integer(i64),
    Float(u64),
    Error(String),
    Str(String),
    Native(String, String),
    Enum(String, Vec<String>),
    EnumVariant(String, String),
    Function(Vec<Node>, Vec<Node>),
    BoundFunction(Box<Object>, Box<Object>),
    Class(usize),
    Instance(usize),
}

/// The model of an `Object`. Function parameters and bodies are kept as
/// syntax-tree views.
pub enum ObjectView {
    Nil,
    Integer(i64),
    Float(u64),
    Error(Seq<char>),
    Str(Seq<char>),
    Native(Seq<char>, Seq<char>),
    Enum(Seq<char>, Seq<Seq<char>>),
    EnumVariant(Seq<char>, Seq<char>),
    Function(Seq<NodeView>, Seq<NodeView>),
    BoundFunction(Box<ObjectView>, Box<ObjectView>),
    Class(int),
    Instance(int),
}

/// The view of one object.
pub open spec fn view_object(o: Object) -> ObjectView
    decreases o,
{
    match o {
        Object::Nil => ObjectView::Nil,
        Object::Integer(i) => ObjectView::Integer(i),
        Object::Float(b) => ObjectView::Float(b),
        Object::Error(m) => ObjectView::Error(m@),
        Object::Str(s) => ObjectView::Str(s@),
        Object::Native(lib, sym) => ObjectView::Native(lib@, sym@),
        Object::Enum(name, variants) => ObjectView::Enum(name@, variants.deep_view()),
        Object::EnumVariant(e, v) => ObjectView::EnumVariant(e@, v@),
        Object::Function(params, body) => ObjectView::Function(
            view_nodes(params@),
            view_nodes(body@),
        ),
        Object::BoundFunction(recv, fun) => ObjectView::BoundFunction(
            Box::new(view_object(*recv)),
            Box::new(view_object(*fun)),
        ),
        Object::Class(h) => ObjectView::Class(h as int),
        Object::Instance(h) => ObjectView::Instance(h as int),
    }
}

impl DeepView for Object {
    type V = ObjectView;

    open spec fn deep_view(&self) -> ObjectView {
        view_object(*self)
    }
}

fn clone_strings(v: &Vec<String>) -> (r: Vec<String>)
    ensures
        r.deep_view() == v.deep_view(),
{
    let mut out: Vec<String> = Vec::new();
    let n = v.len();
    let mut i: usize = 0;
    while i < n
        invariant
            0 <= i <= n,
            n == v@.len(),
            out@.len() == i,
            forall|k: int| 0 <= k < i ==> (#[trigger] out@[k])@ == v@[k]@,
        decreases n - i,
    {
        let s = v[i].clone();
        out.push(s);
        i = i + 1;
    }
    proof {
        assert(out.deep_view() =~~= v.deep_view());
    }
    out
}

impl Clone for Object {
    /// A copy whose view equals the original's.
    fn clone(&self) -> (res: Object)
        ensures
            res.deep_view() == self.deep_view(),
        decreases *self,
    {
        match self {
            Object::Nil => Object::Nil,
            Object::Integer(i) => Object::Integer(*i),
            Object::Float(b) => Object::Float(*b),
            Object::Error(m) => Object::Error(m.clone()),
            Object::Str(s) => Object::Str(s.clone()),
            Object::Native(lib, sym) => Object::Native(lib.clone(), sym.clone()),
            Object::Enum(name, variants) => Object::Enum(name.clone(), clone_strings(variants)),
            Object::EnumVariant(e, v) => Object::EnumVariant(e.clone(), v.clone()),
            Object::Function(params, body) => Object::Function(
                clone_nodes(params),
                clone_nodes(body),
            ),
            Object::BoundFunction(recv, fun) => Object::BoundFunction(
                Box::new((**recv).clone()),
                Box::new((**fun).clone()),
            ),
            Object::Class(h) => Object::Class(*h),
            Object::Instance(h) => Object::Instance(*h),
        }
    }
}

impl Object {
    /// Whether this object is a handle to natively-implemented code.
    pub fn is_native(&self) -> (r: bool)
        ensures
            r == (self.deep_view() is Native),
    {
        match self {
            Object::Native(_, _) => true,
            _ => false,
        }
    }
}

/// A fatal interpretation error: evaluation of the whole program stops
/// when one arises.
#[derive(Debug, PartialEq)]
pub enum Fatal {
    /// A name resolved neither in the local scope nor among the natives.
    UnknownIdentifier(String),
    /// A number literal that holds no integer and no recorded float.
    BadNumberLiteral(String),
    /// An arithmetic operand that is neither an integer nor a float.
    NotNumeric,
    /// A call whose callee is not callable.
    NotCallable,
    /// An assignment whose target is neither an identifier nor a member.
    BadAssignmentTarget,
    /// A function parameter that is not an identifier.
    BadParameter,
    /// A field absent from an instance or class.
    UnknownField(String),
    /// A member access on an object that has no members.
    BadMemberAccess,
    /// A native symbol with no in-process implementation.
    NoSuchNative(String, String),
    /// A node that no finished tree may hold.
    Unevaluable,
    /// Integer arithmetic out of range.
    ArithmeticOverflow,
    /// Integer division or remainder by zero.
    DivisionByZero,
    /// The call-depth budget ran out.
    OutOfFuel,
    /// A floating-point operation with no recorded answer.
    FloatUnavailable(FloatOp),
}

/// The model of a `Fatal`.
pub enum FatalView {
    UnknownIdentifier(Seq<char>),
    BadNumberLiteral(Seq<char>),
    NotNumeric,
    NotCallable,
    BadAssignmentTarget,
    BadParameter,
    UnknownField(Seq<char>),
    BadMemberAccess,
    NoSuchNative(Seq<char>, Seq<char>),
    Unevaluable,
    ArithmeticOverflow,
    DivisionByZero,
    OutOfFuel,
    FloatUnavailable(FloatOpView),
}

impl DeepView for Fatal {
    type V = FatalView;

    open spec fn deep_view(&self) -> FatalView {
        match self {
            Fatal::UnknownIdentifier(s) => FatalView::UnknownIdentifier(s@),
            Fatal::BadNumberLiteral(s) => FatalView::BadNumberLiteral(s@),
            Fatal::NotNumeric => FatalView::NotNumeric,
            Fatal::NotCallable => FatalView::NotCallable,
            Fatal::BadAssignmentTarget => FatalView::BadAssignmentTarget,
            Fatal::BadParameter => FatalView::BadParameter,
            Fatal::UnknownField(s) => FatalView::UnknownField(s@),
            Fatal::BadMemberAccess => FatalView::BadMemberAccess,
            Fatal::NoSuchNative(lib, sym) => FatalView::NoSuchNative(lib@, sym@),
            Fatal::Unevaluable => FatalView::Unevaluable,
            Fatal::ArithmeticOverflow => FatalView::ArithmeticOverflow,
            Fatal::DivisionByZero => FatalView::DivisionByZero,
            Fatal::OutOfFuel => FatalView::OutOfFuel,
            Fatal::FloatUnavailable(op) => FatalView::FloatUnavailable(op.deep_view()),
        }
    }
}

} // verus!
