use crate::dict::Dict;
use crate::model::{mapping, Entries, Expr, Func, Stmt, Target, Text, Value};
use vstd::prelude::*;

verus! {

/// A prefix operator.
#[derive(Debug, Clone, Copy, PartialEq, Eq, Structural)]
pub enum UnaryOp {
    /// `#`
    Len,
}

/// An infix operator.
#[derive(Debug, Clone, Copy, PartialEq, Eq, Structural)]
pub enum BinaryOp {
    /// `+`
    Add,
    /// `-`
    Sub,
    /// `*`
    Mul,
    /// `/`
    Div,
    /// `..`
    Concat,
    /// `==`
    Eq,
    /// `~=`
    Ne,
}

/// A parsed literal: the dynamic value tree.
#[derive(Debug, PartialEq)]
pub enum LuaObject {
    /// A keyed mapping.
    Table(Dict<LuaObject>),
    Array(Vec<LuaObject>),
    Bool(bool),
    Str(String),
    Int(i64),
    /// A numeric literal that is no `i64`, kept as its text.
    Float(String),
    /// An element that is not itself a plain literal, unevaluated.
    Expr(Box<LuaExpr>),
}

#[derive(Debug, PartialEq)]
pub enum LuaExpr {
    /// A dotted path of identifiers.
    Var(Vec<String>),
    Literal(LuaObject),
    Funcall(Vec<String>, Vec<LuaExpr>),
    Fundef(Box<LuaFunction>),
    Unop(UnaryOp, Box<LuaExpr>),
    Binop(BinaryOp, Box<LuaExpr>, Box<LuaExpr>),
}

/// An assignment target: `a.b.c`, or a target under a bracketed index.
#[derive(Debug, PartialEq)]
pub enum LuaLValue {
    Dotted(Vec<String>),
    Subscript(Box<LuaLValue>, LuaExpr),
}

#[derive(Debug, PartialEq)]
pub enum LuaStmt {
    Return(LuaExpr),
    Assign(LuaLValue, LuaExpr),
    /// Condition, then-branch, else-branch (empty without `else`).
    IfThen(LuaExpr, Vec<LuaStmt>, Vec<LuaStmt>),
    Expr(LuaExpr),
}

#[derive(Debug, PartialEq)]
pub struct LuaFunction {
    pub args: Vec<String>,
    pub body: Vec<LuaStmt>,
}

/// The texts of a list of strings.
pub open spec fn names_view(v: Seq<String>) -> Seq<Text> {
    Seq::new(v.len(), |i: int| v[i]@)
}

/// The mathematical value of a literal.
pub open spec fn object_view(o: LuaObject) -> Value
    decreases o,
{
    match o {
        LuaObject::Table(d) => Value::Table(mapping(entries_view(d.entries@))),
        LuaObject::Array(a) => Value::Array(objects_view(a@)),
        LuaObject::Bool(b) => Value::Bool(b),
        LuaObject::Str(s) => Value::Str(s@),
        LuaObject::Int(i) => Value::Int(i),
        LuaObject::Float(t) => Value::Float(t@),
        LuaObject::Expr(e) => Value::Expr(Box::new(expr_view(*e))),
    }
}

/// The entries of a table one by one, in the order in which they are held.
pub open spec fn entries_view(v: Seq<(String, LuaObject)>) -> Entries<Value>
    decreases v,
{
    Seq::new(
        v.len(),
        |i: int|
            if 0 <= i < v.len() {
                (v[i].0@, object_view(v[i].1))
            } else {
                arbitrary()
            },
    )
}

/// The mathematical values of a list of literals.
pub open spec fn objects_view(v: Seq<LuaObject>) -> Seq<Value>
    decreases v,
{
    Seq::new(v.len(), |i: int| if 0 <= i < v.len() { object_view(v[i]) } else { arbitrary() })
}

/// The mathematical value of an expression.
pub open spec fn expr_view(x: LuaExpr) -> Expr
    decreases x,
{
    match x {
        LuaExpr::Var(p) => Expr::Var(names_view(p@)),
        LuaExpr::Literal(v) => Expr::Literal(object_view(v)),
        LuaExpr::Funcall(p, a) => Expr::Funcall(names_view(p@), exprs_view(a@)),
        LuaExpr::Fundef(f) => Expr::Fundef(Box::new(function_view(*f))),
        LuaExpr::Unop(op, e) => Expr::Unop(op, Box::new(expr_view(*e))),
        LuaExpr::Binop(op, l, r) => Expr::Binop(
            op,
            Box::new(expr_view(*l)),
            Box::new(expr_view(*r)),
        ),
    }
}

/// The mathematical values of a list of expressions.
pub open spec fn exprs_view(v: Seq<LuaExpr>) -> Seq<Expr>
    decreases v,
{
    Seq::new(v.len(), |i: int| if 0 <= i < v.len() { expr_view(v[i]) } else { arbitrary() })
}

/// The mathematical value of an assignment target.
pub open spec fn lvalue_view(t: LuaLValue) -> Target
    decreases t,
{
    match t {
        LuaLValue::Dotted(p) => Target::Dotted(names_view(p@)),
        LuaLValue::Subscript(b, i) => Target::Subscript(Box::new(lvalue_view(*b)), expr_view(i)),
    }
}

/// The mathematical value of a statement.
pub open spec fn stmt_view(s: LuaStmt) -> Stmt
    decreases s,
{
    match s {
        LuaStmt::Return(e) => Stmt::Return(expr_view(e)),
        LuaStmt::Assign(t, e) => Stmt::Assign(lvalue_view(t), expr_view(e)),
        LuaStmt::IfThen(c, t, e) => Stmt::IfThen(expr_view(c), stmts_view(t@), stmts_view(e@)),
        LuaStmt::Expr(e) => Stmt::Expr(expr_view(e)),
    }
}

/// The mathematical values of a list of statements.
pub open spec fn stmts_view(v: Seq<LuaStmt>) -> Seq<Stmt>
    decreases v,
{
    Seq::new(v.len(), |i: int| if 0 <= i < v.len() { stmt_view(v[i]) } else { arbitrary() })
}

/// The mathematical value of a function definition.
pub open spec fn function_view(f: LuaFunction) -> Func
    decreases f,
{
    Func { args: names_view(f.args@), body: stmts_view(f.body@) }
}

impl View for LuaObject {
    type V = Value;

    open spec fn view(&self) -> Value {
        object_view(*self)
    }
}

impl DeepView for LuaObject {
    type V = Value;

    open spec fn deep_view(&self) -> Value {
        object_view(*self)
    }
}

impl View for LuaExpr {
    type V = Expr;

    open spec fn view(&self) -> Expr {
        expr_view(*self)
    }
}

impl DeepView for LuaExpr {
    type V = Expr;

    open spec fn deep_view(&self) -> Expr {
        expr_view(*self)
    }
}

impl View for LuaLValue {
    type V = Target;

    open spec fn view(&self) -> Target {
        lvalue_view(*self)
    }
}

impl DeepView for LuaLValue {
    type V = Target;

    open spec fn deep_view(&self) -> Target {
        lvalue_view(*self)
    }
}

impl DeepView for LuaStmt {
    type V = Stmt;

    open spec fn deep_view(&self) -> Stmt {
        stmt_view(*self)
    }
}

impl View for LuaStmt {
    type V = Stmt;

    open spec fn view(&self) -> Stmt {
        stmt_view(*self)
    }
}

impl View for LuaFunction {
    type V = Func;

    open spec fn view(&self) -> Func {
        function_view(*self)
    }
}

impl DeepView for LuaFunction {
    type V = Func;

    open spec fn deep_view(&self) -> Func {
        function_view(*self)
    }
}

/// The texts of a list of strings are what its deep view holds.
pub proof fn lemma_names_view(v: Vec<String>)
    ensures
        names_view(v@) == v.deep_view(),
{
    assert(names_view(v@) =~= v.deep_view());
}

/// A copy of a list of strings.
pub fn duplicate_names(names: &Vec<String>) -> (r: Vec<String>)
    ensures
        names_view(r@) == names_view(names@),
{
    let mut out: Vec<String> = Vec::new();
    let mut i: usize = 0;
    while i < names.len()
        invariant
            i <= names@.len(),
            out@.len() == i,
            forall|j: int| 0 <= j < i ==> (#[trigger] out@[j])@ == names@[j]@,
        decreases names@.len() - i,
    {
        out.push(names[i].clone());
        i += 1;
    }
    assert(names_view(out@) =~= names_view(names@));
    out
}

impl LuaObject {
    /// A copy of this value.
    pub fn duplicate(&self) -> (r: LuaObject)
        ensures
            r@ == self@,
        decreases self,
    {
        match self {
            LuaObject::Table(d) => {
                let mut out: Vec<(String, LuaObject)> = Vec::new();
                let mut i: usize = 0;
                while i < d.entries.len()
                    invariant
                        i <= d.entries@.len(),
                        *self == LuaObject::Table(*d),
                        out@.len() == i,
                        forall|j: int|
                            0 <= j < i ==> (#[trigger] out@[j]).0@ == d.entries@[j].0@
                                && object_view(out@[j].1) == object_view(d.entries@[j].1),
                    decreases d.entries@.len() - i,
                {
                    proof {
                        assert(decreases_to!(*self => self->Table_0));
                        assert(decreases_to!(*d => d.entries));
                        assert(decreases_to!(d.entries => d.entries[i as int]));
                        assert(decreases_to!(d.entries[i as int] => d.entries[i as int].1));
                    }
                    let value = d.entries[i].1.duplicate();
                    out.push((d.entries[i].0.clone(), value));
                    i += 1;
                }
                assert(entries_view(out@) =~= entries_view(d.entries@));
                LuaObject::Table(Dict { entries: out })
            },
            LuaObject::Array(a) => {
                let mut out: Vec<LuaObject> = Vec::new();
                let mut i: usize = 0;
                while i < a.len()
                    invariant
                        i <= a@.len(),
                        *self == LuaObject::Array(*a),
                        out@.len() == i,
                        forall|j: int|
                            0 <= j < i ==> object_view(#[trigger] out@[j]) == object_view(a@[j]),
                    decreases a@.len() - i,
                {
                    proof {
                        assert(decreases_to!(*self => self->Array_0));
                        assert(decreases_to!(*a => a[i as int]));
                    }
                    out.push(a[i].duplicate());
                    i += 1;
                }
                assert(objects_view(out@) =~= objects_view(a@));
                LuaObject::Array(out)
            },
            LuaObject::Bool(b) => LuaObject::Bool(*b),
            LuaObject::Str(s) => LuaObject::Str(s.clone()),
            LuaObject::Int(i) => LuaObject::Int(*i),
            LuaObject::Float(t) => LuaObject::Float(t.clone()),
            LuaObject::Expr(e) => {
                proof {
                    assert(decreases_to!(*self => self->Expr_0));
                }
                let x = e.duplicate();
                let r = LuaObject::Expr(Box::new(x));
                assert(object_view(r) == Value::Expr(Box::new(expr_view(x))));
                r
            },
        }
    }
}

/// A copy of a list of expressions.
fn duplicate_exprs(list: &Vec<LuaExpr>) -> (r: Vec<LuaExpr>)
    ensures
        exprs_view(r@) == exprs_view(list@),
    decreases list,
{
    let mut out: Vec<LuaExpr> = Vec::new();
    let mut i: usize = 0;
    while i < list.len()
        invariant
            i <= list@.len(),
            out@.len() == i,
            forall|j: int| 0 <= j < i ==> expr_view(#[trigger] out@[j]) == expr_view(list@[j]),
        decreases list@.len() - i,
    {
        proof {
            assert(decreases_to!(*list => list[i as int]));
        }
        out.push(list[i].duplicate());
        i += 1;
    }
    assert(exprs_view(out@) =~= exprs_view(list@));
    out
}

/// A copy of a list of statements.
fn duplicate_stmts(list: &Vec<LuaStmt>) -> (r: Vec<LuaStmt>)
    ensures
        stmts_view(r@) == stmts_view(list@),
    decreases list,
{
    let mut out: Vec<LuaStmt> = Vec::new();
    let mut i: usize = 0;
    while i < list.len()
        invariant
            i <= list@.len(),
            out@.len() == i,
            forall|j: int| 0 <= j < i ==> stmt_view(#[trigger] out@[j]) == stmt_view(list@[j]),
        decreases list@.len() - i,
    {
        proof {
            assert(decreases_to!(*list => list[i as int]));
        }
        out.push(list[i].duplicate());
        i += 1;
    }
    assert(stmts_view(out@) =~= stmts_view(list@));
    out
}

impl LuaExpr {
    /// A copy of this expression.
    pub fn duplicate(&self) -> (r: LuaExpr)
        ensures
            r@ == self@,
        decreases self,
    {
        match self {
            LuaExpr::Var(p) => LuaExpr::Var(duplicate_names(p)),
            LuaExpr::Literal(v) => LuaExpr::Literal(v.duplicate()),
            LuaExpr::Funcall(p, a) => {
                proof {
                    assert(decreases_to!(*self => self->Funcall_1));
                }
                LuaExpr::Funcall(duplicate_names(p), duplicate_exprs(a))
            },
            LuaExpr::Fundef(f) => {
                proof {
                    assert(decreases_to!(*self => self->Fundef_0));
                }
                LuaExpr::Fundef(Box::new(f.duplicate()))
            },
            LuaExpr::Unop(op, e) => {
                proof {
                    assert(decreases_to!(*self => self->Unop_1));
                }
                LuaExpr::Unop(*op, Box::new(e.duplicate()))
            },
            LuaExpr::Binop(op, l, r) => {
                proof {
                    assert(decreases_to!(*self => self->Binop_1));
                    assert(decreases_to!(*self => self->Binop_2));
                }
                LuaExpr::Binop(*op, Box::new(l.duplicate()), Box::new(r.duplicate()))
            },
        }
    }
}

impl LuaLValue {
    /// A copy of this target.
    pub fn duplicate(&self) -> (r: LuaLValue)
        ensures
            r@ == self@,
        decreases self,
    {
        match self {
            LuaLValue::Dotted(p) => LuaLValue::Dotted(duplicate_names(p)),
            LuaLValue::Subscript(b, i) => {
                proof {
                    assert(decreases_to!(*self => self->Subscript_0));
                }
                LuaLValue::Subscript(Box::new(b.duplicate()), i.duplicate())
            },
        }
    }
}

impl LuaStmt {
    /// A copy of this statement.
    pub fn duplicate(&self) -> (r: LuaStmt)
        ensures
            r@ == self@,
        decreases self,
    {
        match self {
            LuaStmt::Return(e) => LuaStmt::Return(e.duplicate()),
            LuaStmt::Assign(t, e) => LuaStmt::Assign(t.duplicate(), e.duplicate()),
            LuaStmt::IfThen(c, t, e) => {
                proof {
                    assert(decreases_to!(*self => self->IfThen_1));
                    assert(decreases_to!(*self => self->IfThen_2));
                }
                LuaStmt::IfThen(c.duplicate(), duplicate_stmts(t), duplicate_stmts(e))
            },
            LuaStmt::Expr(e) => LuaStmt::Expr(e.duplicate()),
        }
    }
}

impl LuaFunction {
    /// A copy of this function.
    pub fn duplicate(&self) -> (r: LuaFunction)
        ensures
            r@ == self@,
        decreases self,
    {
        proof {
            assert(decreases_to!(*self => self.body));
        }
        LuaFunction { args: duplicate_names(&self.args), body: duplicate_stmts(&self.body) }
    }
}

impl Clone for LuaObject {
    fn clone(&self) -> (r: Self)
        ensures
            r@ == self@,
    {
        self.duplicate()
    }
}

impl Clone for LuaExpr {
    fn clone(&self) -> (r: Self)
        ensures
            r@ == self@,
    {
        self.duplicate()
    }
}

impl Clone for LuaLValue {
    fn clone(&self) -> (r: Self)
        ensures
            r@ == self@,
    {
        self.duplicate()
    }
}

impl Clone for LuaStmt {
    fn clone(&self) -> (r: Self)
        ensures
            r@ == self@,
    {
        self.duplicate()
    }
}

impl Clone for LuaFunction {
    fn clone(&self) -> (r: Self)
        ensures
            r@ == self@,
    {
        self.duplicate()
    }
}

} // verus!
