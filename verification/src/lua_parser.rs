use crate::decode::lemma_table_view;
use crate::dict::Dict;
use crate::grammar::{
    args_at, args_from, array_at, assign_at, binop_at, block_at, bool_at, data_extend_at,
    else_at, expr_at, field_at, fields_from, find_text, forms_from, funcall_at, function_at,
    function_tail_at,
    identifier_at, if_at, inside, items_from, local_at, name_position_at, num_at, object_at,
    operator_at, params_at, params_from, paren_at, past_comma, path_at, path_from, return_at,
    stmt_at, stmts_from, str_at, stuck, subscripts_from, table_at, target_at, toplevel_at,
    unhandled_body_at, unop_at, Parsed, Trail,
};
use crate::lexer::{
    at_char, at_text, chars_of, has_char, has_text, lemma_skip_idempotent, lemma_skip_suffix,
    scan, skip,
    skip_from, text_of, CharClass,
};
use crate::model::{Expr, Gathered, Stmt, Target, Text, Value};
use crate::numbers::{read_int, reads_as_float};
use crate::tree::{
    expr_view, exprs_view, lemma_names_view, lvalue_view, names_view, objects_view, stmt_view,
    stmts_view,
};
use vstd::prelude::*;
use vstd::string::StrSliceExecFns;

pub use crate::grammar::{Frame, Rule};
pub use crate::tree::{BinaryOp, LuaExpr, LuaFunction, LuaLValue, LuaObject, LuaStmt, UnaryOp};

verus! {

/// A text that a rule did not match: the rules that were being tried, the innermost
/// first, each with the place where it could not go on.
#[derive(Debug, Clone, PartialEq, Eq)]
pub struct ParseError {
    pub trail: Vec<Frame>,
}

impl View for ParseError {
    type V = Trail;

    open spec fn view(&self) -> Trail {
        self.trail@
    }
}

/// The failure of a rule that finds at `at` none of what it needs.
fn stuck_at(rule: Rule, at: usize) -> (e: ParseError)
    ensures
        e@ == stuck(rule, at as int),
{
    let mut trail: Vec<Frame> = Vec::new();
    trail.push(Frame { rule, at });
    ParseError { trail }
}

/// The failure of a rule of which a part, tried at `at`, failed with `e`.
fn inside_at(e: ParseError, rule: Rule, at: usize) -> (r: ParseError)
    ensures
        r@ == inside(e@, rule, at as int),
{
    let mut trail = e.trail;
    trail.push(Frame { rule, at });
    ParseError { trail }
}

/// What a parser returned agrees with what the grammar says.
pub open spec fn same<T: DeepView>(r: Result<(T, usize), ParseError>, m: Parsed<T::V>) -> bool {
    match r {
        Ok((v, e)) => m == Ok::<(T::V, int), Trail>((v.deep_view(), e as int)),
        Err(f) => m == Err::<(T::V, int), Trail>(f@),
    }
}

/// What a parser returned ends after `pos`, within the text.
pub open spec fn advances<T>(r: Result<(T, usize), ParseError>, len: nat, pos: usize) -> bool {
    match r {
        Ok((_, e)) => pos < e <= len,
        Err(_) => true,
    }
}

/// Tells whether `src` holds exactly `word` from `p` to `e`.
fn is_word(src: &[char], p: usize, e: usize, word: &str) -> (b: bool)
    requires
        p <= e <= src@.len(),
    ensures
        b == (src@.subrange(p as int, e as int) == word@),
{
    match at_text(src, p, word) {
        Some(end) => {
            proof {
                if end != e {
                    assert(src@.subrange(p as int, e as int).len() != word@.len());
                }
            }
            end == e
        },
        None => {
            proof {
                if src@.subrange(p as int, e as int) == word@ {
                    assert(e - p == word@.len());
                }
            }
            false
        },
    }
}

fn identifier(src: &[char], pos: usize) -> (r: Result<(String, usize), ParseError>)
    requires
        pos <= src@.len(),
    ensures
        same(r, identifier_at(src@, pos as int)),
        advances(r, src@.len(), pos),
{
    if pos >= src.len() {
        return Err(stuck_at(Rule::Identifier, pos));
    }
    let c = src[pos];
    if !(('a' <= c && c <= 'z') || ('A' <= c && c <= 'Z') || c == '_') {
        return Err(stuck_at(Rule::Identifier, pos));
    }
    let e = scan(src, pos + 1, CharClass::Word);
    if is_word(src, pos, e, "return") || is_word(src, pos, e, "true") || is_word(
        src,
        pos,
        e,
        "false",
    ) || is_word(src, pos, e, "if") || is_word(src, pos, e, "then") || is_word(
        src,
        pos,
        e,
        "else",
    ) || is_word(src, pos, e, "end") {
        return Err(stuck_at(Rule::Identifier, pos));
    }
    Ok((text_of(src, pos, e), e))
}

fn path(src: &[char], pos: usize) -> (r: Result<(Vec<String>, usize), ParseError>)
    requires
        pos <= src@.len(),
    ensures
        same(r, path_at(src@, pos as int)),
        advances(r, src@.len(), pos),
{
    let (first, start) = match identifier(src, pos) {
        Ok(x) => x,
        Err(e) => {
            return Err(inside_at(e, Rule::Namespaced, pos));
        },
    };
    let mut names: Vec<String> = Vec::new();
    names.push(first);
    assert(names.deep_view() =~= seq![first@]);
    let mut p: usize = start;
    loop
        invariant
            pos < start <= p <= src@.len(),
            path_from(src@, start as int, seq![first@]) == path_from(
                src@,
                p as int,
                names.deep_view(),
            ),
        ensures
            start <= p <= src@.len(),
            path_from(src@, start as int, seq![first@]) == (names.deep_view(), p as int),
        decreases src@.len() - p,
    {
        if !at_char(src, p, '.') {
            break;
        }
        match identifier(src, p + 1) {
            Ok((name, e)) => {
                let ghost before = names.deep_view();
                names.push(name);
                assert(names.deep_view() =~= before.push(name@));
                p = e;
            },
            Err(_) => {
                break;
            },
        }
    }
    Ok((names, skip_from(src, p)))
}

fn boolean(src: &[char], pos: usize) -> (r: Result<(LuaObject, usize), ParseError>)
    requires
        pos <= src@.len(),
    ensures
        same(r, bool_at(src@, pos as int)),
        advances(r, src@.len(), pos),
{
    proof {
        reveal_strlit("true");
        reveal_strlit("false");
    }
    match at_text(src, pos, "true") {
        Some(e) => Ok((LuaObject::Bool(true), skip_from(src, e))),
        None => match at_text(src, pos, "false") {
            Some(e) => Ok((LuaObject::Bool(false), skip_from(src, e))),
            None => Err(stuck_at(Rule::Bool, pos)),
        },
    }
}

fn number(src: &[char], pos: usize) -> (r: Result<(LuaObject, usize), ParseError>)
    requires
        pos <= src@.len(),
    ensures
        same(r, num_at(src@, pos as int)),
        advances(r, src@.len(), pos),
{
    let e = scan(src, pos, CharClass::Numeric);
    match read_int(src, pos, e) {
        Some(i) => Ok((LuaObject::Int(i), skip_from(src, e))),
        None => if reads_as_float(src, pos, e) {
            Ok((LuaObject::Float(text_of(src, pos, e)), skip_from(src, e)))
        } else {
            Err(stuck_at(Rule::Num, pos))
        },
    }
}

fn string(src: &[char], pos: usize) -> (r: Result<(LuaObject, usize), ParseError>)
    requires
        pos <= src@.len(),
    ensures
        same(r, str_at(src@, pos as int)),
        advances(r, src@.len(), pos),
{
    if !at_char(src, pos, '"') {
        return Err(stuck_at(Rule::Str, pos));
    }
    let e = scan(src, pos + 1, CharClass::Quoted);
    if !at_char(src, e, '"') {
        return Err(stuck_at(Rule::Str, e));
    }
    Ok((LuaObject::Str(text_of(src, pos + 1, e)), skip_from(src, e + 1)))
}

/// Runs over a `,` at `pos` and what follows it, if there is one.
fn after_comma(src: &[char], pos: usize) -> (e: usize)
    requires
        pos <= src@.len(),
    ensures
        e == past_comma(src@, pos as int),
        pos <= e <= src@.len(),
        has_char(src@, pos as int, ',') ==> pos < e,
{
    if at_char(src, pos, ',') {
        skip_from(src, pos + 1)
    } else {
        pos
    }
}

fn object(src: &[char], pos: usize) -> (r: Result<(LuaObject, usize), ParseError>)
    requires
        pos <= src@.len(),
    ensures
        same(r, object_at(src@, pos as int)),
        advances(r, src@.len(), pos),
    decreases src@.len() - pos, 1int,
{
    if let Ok(r) = number(src, pos) {
        return Ok(r);
    }
    if let Ok(r) = boolean(src, pos) {
        return Ok(r);
    }
    if let Ok(r) = string(src, pos) {
        return Ok(r);
    }
    if let Ok(r) = table(src, pos) {
        return Ok(r);
    }
    if let Ok(r) = array(src, pos) {
        return Ok(r);
    }
    match path(src, pos) {
        Ok((names, e)) => {
            let ghost model = names.deep_view();
            let v = LuaObject::Expr(Box::new(LuaExpr::Var(names)));
            assert(names_view(names@) =~= model);
            assert(expr_view(LuaExpr::Var(names)) == Expr::Var(model));
            Ok((v, e))
        },
        Err(e) => Err(inside_at(e, Rule::Object, pos)),
    }
}

fn field(src: &[char], pos: usize) -> (r: Result<((String, LuaObject), usize), ParseError>)
    requires
        pos <= src@.len(),
    ensures
        same(r, field_at(src@, pos as int)),
        advances(r, src@.len(), pos),
    decreases src@.len() - pos, 0int,
{
    let (name, e) = match identifier(src, pos) {
        Ok(x) => x,
        Err(e) => {
            return Err(inside_at(e, Rule::Field, pos));
        },
    };
    let p1 = skip_from(src, e);
    if !at_char(src, p1, '=') {
        return Err(stuck_at(Rule::Field, p1));
    }
    let p2 = skip_from(src, p1 + 1);
    match object(src, p2) {
        Ok((v, e2)) => Ok(((name, v), e2)),
        Err(e) => Err(inside_at(e, Rule::Field, p2)),
    }
}

fn table(src: &[char], pos: usize) -> (r: Result<(LuaObject, usize), ParseError>)
    requires
        pos <= src@.len(),
    ensures
        same(r, table_at(src@, pos as int)),
        advances(r, src@.len(), pos),
    decreases src@.len() - pos, 0int,
{
    if !at_char(src, pos, '{') {
        return Err(stuck_at(Rule::Table, pos));
    }
    let p1 = skip_from(src, pos + 1);
    let mut entries: Dict<LuaObject> = Dict::new();
    let mut p: usize = p1;
    match field(src, p1) {
        Ok((f, e)) => {
            let ghost first = Map::<Text, Value>::empty().insert(f.0@, f.1@);
            entries.insert(f.0, f.1);
            p = e;
            loop
                invariant
                    pos < p <= src@.len(),
                    fields_from(src@, e as int, first) == fields_from(
                        src@,
                        p as int,
                        entries.deep_view(),
                    ),
                ensures
                    pos < p <= src@.len(),
                    fields_from(src@, e as int, first) == (entries.deep_view(), p as int),
                decreases src@.len() - p,
            {
                if !at_char(src, p, ',') {
                    break;
                }
                let q = skip_from(src, p + 1);
                match field(src, q) {
                    Ok((f, e)) => {
                        entries.insert(f.0, f.1);
                        p = e;
                    },
                    Err(_) => {
                        break;
                    },
                }
            }
        },
        Err(_) => {},
    }
    let q = after_comma(src, p);
    if !at_char(src, q, '}') {
        return Err(stuck_at(Rule::Table, q));
    }
    proof {
        lemma_table_view(entries);
    }
    Ok((LuaObject::Table(entries), skip_from(src, q + 1)))
}

fn array(src: &[char], pos: usize) -> (r: Result<(LuaObject, usize), ParseError>)
    requires
        pos <= src@.len(),
    ensures
        same(r, array_at(src@, pos as int)),
        advances(r, src@.len(), pos),
    decreases src@.len() - pos, 0int,
{
    if !at_char(src, pos, '{') {
        return Err(stuck_at(Rule::Array, pos));
    }
    let p1 = skip_from(src, pos + 1);
    let (first, e) = match object(src, p1) {
        Ok(x) => x,
        Err(e) => {
            return Err(inside_at(e, Rule::Array, p1));
        },
    };
    let mut items: Vec<LuaObject> = Vec::new();
    let ghost fv = first@;
    items.push(first);
    assert(objects_view(items@) =~= seq![fv]);
    let mut p: usize = e;
    loop
        invariant
            pos < p <= src@.len(),
            items_from(src@, e as int, seq![fv]) == items_from(
                src@,
                p as int,
                objects_view(items@),
            ),
        ensures
            pos < p <= src@.len(),
            items_from(src@, e as int, seq![fv]) == (objects_view(items@), p as int),
        decreases src@.len() - p,
    {
        if !at_char(src, p, ',') {
            break;
        }
        let q = skip_from(src, p + 1);
        match object(src, q) {
            Ok((v, e)) => {
                let ghost before = objects_view(items@);
                let ghost vv = v@;
                items.push(v);
                assert(objects_view(items@) =~= before.push(vv));
                p = e;
            },
            Err(_) => {
                break;
            },
        }
    }
    let q = after_comma(src, p);
    if !at_char(src, q, '}') {
        return Err(stuck_at(Rule::Array, q));
    }
    Ok((LuaObject::Array(items), skip_from(src, q + 1)))
}

fn operator(src: &[char], pos: usize) -> (r: Option<(BinaryOp, usize)>)
    requires
        pos <= src@.len(),
    ensures
        match r {
            Some((op, e)) => operator_at(src@, pos as int) == Some((op, e as int)) && pos < e
                <= src@.len(),
            None => operator_at(src@, pos as int) is None,
        },
{
    if at_char(src, pos, '.') && at_char(src, pos + 1, '.') {
        Some((BinaryOp::Concat, pos + 2))
    } else if at_char(src, pos, '=') && at_char(src, pos + 1, '=') {
        Some((BinaryOp::Eq, pos + 2))
    } else if at_char(src, pos, '~') && at_char(src, pos + 1, '=') {
        Some((BinaryOp::Ne, pos + 2))
    } else if at_char(src, pos, '+') {
        Some((BinaryOp::Add, pos + 1))
    } else if at_char(src, pos, '-') {
        Some((BinaryOp::Sub, pos + 1))
    } else if at_char(src, pos, '*') {
        Some((BinaryOp::Mul, pos + 1))
    } else if at_char(src, pos, '/') {
        Some((BinaryOp::Div, pos + 1))
    } else {
        None
    }
}

fn params(src: &[char], pos: usize) -> (r: (Vec<String>, usize))
    requires
        pos <= src@.len(),
    ensures
        params_at(src@, pos as int) == (r.0.deep_view(), r.1 as int),
        pos <= r.1 <= src@.len(),
{
    let mut names: Vec<String> = Vec::new();
    assert(names.deep_view() =~= Seq::empty());
    let (first, start) = match identifier(src, pos) {
        Ok(x) => x,
        Err(_) => {
            return (names, pos);
        },
    };
    names.push(first);
    assert(names.deep_view() =~= seq![first@]);
    let mut p: usize = start;
    loop
        invariant
            pos < start <= p <= src@.len(),
            params_from(src@, start as int, seq![first@]) == params_from(
                src@,
                p as int,
                names.deep_view(),
            ),
        ensures
            pos <= p <= src@.len(),
            params_from(src@, start as int, seq![first@]) == (names.deep_view(), p as int),
        decreases src@.len() - p,
    {
        if !at_char(src, p, ',') {
            break;
        }
        let q = skip_from(src, p + 1);
        match identifier(src, q) {
            Ok((name, e)) => {
                let ghost before = names.deep_view();
                names.push(name);
                assert(names.deep_view() =~= before.push(name@));
                p = e;
            },
            Err(_) => {
                break;
            },
        }
    }
    (names, p)
}

fn name_position(src: &[char], pos: usize, named: bool) -> (r: Result<
    (Option<String>, usize),
    ParseError,
>)
    requires
        pos <= src@.len(),
    ensures
        same(r, name_position_at(src@, pos as int, named)),
        match r {
            Ok((_, e)) => pos <= e <= src@.len(),
            Err(_) => true,
        },
{
    if named {
        match identifier(src, pos) {
            Ok((name, e)) => Ok((Some(name), skip_from(src, e))),
            Err(e) => Err(e),
        }
    } else {
        Ok((None, pos))
    }
}

/// What a parser of statements returned agrees with what the grammar says.
pub open spec fn same_stmts(
    r: Result<(Vec<LuaStmt>, usize), ParseError>,
    m: Parsed<Seq<Stmt>>,
) -> bool {
    match r {
        Ok((v, e)) => m == Ok::<(Seq<Stmt>, int), Trail>((stmts_view(v@), e as int)),
        Err(f) => m == Err::<(Seq<Stmt>, int), Trail>(f@),
    }
}

fn expr(src: &[char], pos: usize) -> (r: Result<(LuaExpr, usize), ParseError>)
    requires
        pos <= src@.len(),
    ensures
        same(r, expr_at(src@, pos as int)),
        advances(r, src@.len(), pos),
    decreases src@.len() - pos, 1int,
{
    if let Ok((f, e)) = function(src, pos, false) {
        let ghost fv = f.1@;
        let x = LuaExpr::Fundef(Box::new(f.1));
        assert(expr_view(x) == Expr::Fundef(Box::new(fv)));
        return Ok((x, e));
    }
    if let Ok(r) = funcall(src, pos) {
        return Ok(r);
    }
    if let Ok(r) = binop(src, pos) {
        return Ok(r);
    }
    if let Ok(r) = unop(src, pos) {
        return Ok(r);
    }
    if let Ok(r) = paren(src, pos) {
        return Ok(r);
    }
    match object(src, pos) {
        Ok((v, e)) => {
            let ghost vv = v@;
            let x = LuaExpr::Literal(v);
            assert(expr_view(x) == Expr::Literal(vv));
            Ok((x, e))
        },
        Err(e) => Err(inside_at(e, Rule::Expr, pos)),
    }
}

fn args(src: &[char], pos: usize) -> (r: (Vec<LuaExpr>, usize))
    requires
        pos <= src@.len(),
    ensures
        args_at(src@, pos as int) == (exprs_view(r.0@), r.1 as int),
        pos <= r.1 <= src@.len(),
    decreases src@.len() - pos, 2int,
{
    let mut list: Vec<LuaExpr> = Vec::new();
    assert(exprs_view(list@) =~= Seq::empty());
    let (first, start) = match expr(src, pos) {
        Ok(x) => x,
        Err(_) => {
            return (list, pos);
        },
    };
    let ghost fv = first@;
    list.push(first);
    assert(exprs_view(list@) =~= seq![fv]);
    let mut p: usize = start;
    loop
        invariant
            pos < start <= p <= src@.len(),
            args_from(src@, start as int, seq![fv]) == args_from(
                src@,
                p as int,
                exprs_view(list@),
            ),
        ensures
            pos <= p <= src@.len(),
            args_from(src@, start as int, seq![fv]) == (exprs_view(list@), p as int),
        decreases src@.len() - p,
    {
        if !at_char(src, p, ',') {
            break;
        }
        let q = skip_from(src, p + 1);
        match expr(src, q) {
            Ok((x, e)) => {
                let ghost before = exprs_view(list@);
                let ghost xv = x@;
                list.push(x);
                assert(exprs_view(list@) =~= before.push(xv));
                p = e;
            },
            Err(_) => {
                break;
            },
        }
    }
    (list, p)
}

fn funcall(src: &[char], pos: usize) -> (r: Result<(LuaExpr, usize), ParseError>)
    requires
        pos <= src@.len(),
    ensures
        same(r, funcall_at(src@, pos as int)),
        advances(r, src@.len(), pos),
    decreases src@.len() - pos, 0int,
{
    let (names, p1) = match path(src, pos) {
        Ok(x) => x,
        Err(e) => {
            return Err(inside_at(e, Rule::Funcall, pos));
        },
    };
    if !at_char(src, p1, '(') {
        return Err(stuck_at(Rule::Funcall, p1));
    }
    let p2 = skip_from(src, p1 + 1);
    let (list, p3) = args(src, p2);
    if !at_char(src, p3, ')') {
        return Err(stuck_at(Rule::Funcall, p3));
    }
    proof {
        lemma_names_view(names);
    }
    let ghost nv = names.deep_view();
    let ghost av = exprs_view(list@);
    let x = LuaExpr::Funcall(names, list);
    assert(expr_view(x) == Expr::Funcall(nv, av));
    Ok((x, skip_from(src, p3 + 1)))
}

fn binop(src: &[char], pos: usize) -> (r: Result<(LuaExpr, usize), ParseError>)
    requires
        pos <= src@.len(),
    ensures
        same(r, binop_at(src@, pos as int)),
        advances(r, src@.len(), pos),
    decreases src@.len() - pos, 0int,
{
    let (left, p1) = match object(src, pos) {
        Ok(x) => x,
        Err(e) => {
            return Err(inside_at(e, Rule::Binop, pos));
        },
    };
    let (op, p2) = match operator(src, p1) {
        Some(x) => x,
        None => {
            return Err(stuck_at(Rule::Binop, p1));
        },
    };
    let p3 = skip_from(src, p2);
    match expr(src, p3) {
        Ok((right, e)) => {
            let ghost lv = left@;
            let ghost rv = right@;
            let l = LuaExpr::Literal(left);
            assert(expr_view(l) == Expr::Literal(lv));
            let x = LuaExpr::Binop(op, Box::new(l), Box::new(right));
            assert(expr_view(x) == Expr::Binop(
                op,
                Box::new(Expr::Literal(lv)),
                Box::new(rv),
            ));
            Ok((x, e))
        },
        Err(e) => Err(inside_at(e, Rule::Binop, p3)),
    }
}

fn unop(src: &[char], pos: usize) -> (r: Result<(LuaExpr, usize), ParseError>)
    requires
        pos <= src@.len(),
    ensures
        same(r, unop_at(src@, pos as int)),
        advances(r, src@.len(), pos),
    decreases src@.len() - pos, 0int,
{
    if !at_char(src, pos, '#') {
        return Err(stuck_at(Rule::Unop, pos));
    }
    let p1 = skip_from(src, pos + 1);
    match expr(src, p1) {
        Ok((operand, e)) => {
            let ghost ov = operand@;
            let x = LuaExpr::Unop(UnaryOp::Len, Box::new(operand));
            assert(expr_view(x) == Expr::Unop(UnaryOp::Len, Box::new(ov)));
            Ok((x, e))
        },
        Err(e) => Err(inside_at(e, Rule::Unop, p1)),
    }
}

fn paren(src: &[char], pos: usize) -> (r: Result<(LuaExpr, usize), ParseError>)
    requires
        pos <= src@.len(),
    ensures
        same(r, paren_at(src@, pos as int)),
        advances(r, src@.len(), pos),
    decreases src@.len() - pos, 0int,
{
    if !at_char(src, pos, '(') {
        return Err(stuck_at(Rule::Paren, pos));
    }
    let p1 = skip_from(src, pos + 1);
    match expr(src, p1) {
        Ok((x, e)) => if at_char(src, e, ')') {
            Ok((x, skip_from(src, e + 1)))
        } else {
            Err(stuck_at(Rule::Paren, e))
        },
        Err(e) => Err(inside_at(e, Rule::Paren, p1)),
    }
}

fn function(src: &[char], pos: usize, named: bool) -> (r: Result<
    ((Option<String>, LuaFunction), usize),
    ParseError,
>)
    requires
        pos <= src@.len(),
    ensures
        same(r, function_at(src@, pos as int, named)),
        advances(r, src@.len(), pos),
    decreases src@.len() - pos, 0int,
{
    proof {
        reveal_strlit("function");
    }
    let after = match at_text(src, pos, "function") {
        Some(e) => e,
        None => {
            return Err(stuck_at(Rule::Function, pos));
        },
    };
    let p0 = skip_from(src, after);
    let (name, p1) = match name_position(src, p0, named) {
        Ok(x) => x,
        Err(e) => {
            return Err(inside_at(e, Rule::Function, p0));
        },
    };
    match function_tail(src, p1) {
        Ok((f, e)) => Ok(((name, f), e)),
        Err(e) => Err(e),
    }
}

fn function_tail(src: &[char], pos: usize) -> (r: Result<(LuaFunction, usize), ParseError>)
    requires
        pos <= src@.len(),
    ensures
        same(r, function_tail_at(src@, pos as int)),
        advances(r, src@.len(), pos),
    decreases src@.len() - pos, 0int,
{
    let p1 = pos;
    if !at_char(src, p1, '(') {
        return Err(stuck_at(Rule::Function, p1));
    }
    let (names, p2) = params(src, skip_from(src, p1 + 1));
    if !at_char(src, p2, ')') {
        return Err(stuck_at(Rule::Function, p2));
    }
    let p3 = skip_from(src, p2 + 1);
    let (body, p4) = match block(src, p3) {
        Ok(x) => x,
        Err(e) => {
            return Err(inside_at(e, Rule::Function, p3));
        },
    };
    match at_text(src, p4, "end") {
        Some(e) => {
            proof {
                lemma_names_view(names);
            }
            let f = LuaFunction { args: names, body };
            Ok((f, skip_from(src, e)))
        },
        None => Err(stuck_at(Rule::Function, p4)),
    }
}

fn block(src: &[char], pos: usize) -> (r: Result<(Vec<LuaStmt>, usize), ParseError>)
    requires
        pos <= src@.len(),
    ensures
        same_stmts(r, block_at(src@, pos as int)),
        advances(r, src@.len(), pos),
    decreases src@.len() - pos, 3int,
{
    let (first, start) = match stmt(src, pos) {
        Ok(x) => x,
        Err(e) => {
            return Err(inside_at(e, Rule::Block, pos));
        },
    };
    let mut list: Vec<LuaStmt> = Vec::new();
    let ghost fv = first@;
    list.push(first);
    assert(stmts_view(list@) =~= seq![fv]);
    let mut p: usize = start;
    loop
        invariant
            pos < start <= p <= src@.len(),
            stmts_from(src@, start as int, seq![fv]) == stmts_from(
                src@,
                p as int,
                stmts_view(list@),
            ),
        ensures
            pos < p <= src@.len(),
            stmts_from(src@, start as int, seq![fv]) == (stmts_view(list@), p as int),
        decreases src@.len() - p,
    {
        match stmt(src, p) {
            Ok((st, e)) => {
                let ghost before = stmts_view(list@);
                let ghost sv = st@;
                list.push(st);
                assert(stmts_view(list@) =~= before.push(sv));
                p = e;
            },
            Err(_) => {
                break;
            },
        }
    }
    Ok((list, p))
}

fn stmt(src: &[char], pos: usize) -> (r: Result<(LuaStmt, usize), ParseError>)
    requires
        pos <= src@.len(),
    ensures
        same(r, stmt_at(src@, pos as int)),
        advances(r, src@.len(), pos),
    decreases src@.len() - pos, 2int,
{
    if let Ok(r) = return_stmt(src, pos) {
        return Ok(r);
    }
    if let Ok(r) = assign(src, pos) {
        return Ok(r);
    }
    if let Ok((binding, e)) = local(src, pos) {
        let ghost nv = binding.0@;
        let ghost xv = binding.1@;
        let mut names: Vec<String> = Vec::new();
        names.push(binding.0);
        assert(names_view(names@) =~= seq![nv]);
        let target = LuaLValue::Dotted(names);
        assert(lvalue_view(target) == Target::Dotted(seq![nv]));
        let st = LuaStmt::Assign(target, binding.1);
        assert(stmt_view(st) == Stmt::Assign(Target::Dotted(seq![nv]), xv));
        return Ok((st, e));
    }
    if let Ok(r) = if_stmt(src, pos) {
        return Ok(r);
    }
    match expr(src, pos) {
        Ok((x, e)) => {
            let ghost xv = x@;
            let st = LuaStmt::Expr(x);
            assert(stmt_view(st) == Stmt::Expr(xv));
            Ok((st, e))
        },
        Err(e) => Err(inside_at(e, Rule::Stmt, pos)),
    }
}

fn return_stmt(src: &[char], pos: usize) -> (r: Result<(LuaStmt, usize), ParseError>)
    requires
        pos <= src@.len(),
    ensures
        same(r, return_at(src@, pos as int)),
        advances(r, src@.len(), pos),
    decreases src@.len() - pos, 0int,
{
    proof {
        reveal_strlit("return");
    }
    let p0 = match at_text(src, pos, "return") {
        Some(e) => e,
        None => {
            return Err(stuck_at(Rule::Return, pos));
        },
    };
    let p1 = skip_from(src, p0);
    match expr(src, p1) {
        Ok((x, e)) => {
            let ghost xv = x@;
            let st = LuaStmt::Return(x);
            assert(stmt_view(st) == Stmt::Return(xv));
            Ok((st, e))
        },
        Err(e) => Err(inside_at(e, Rule::Return, p1)),
    }
}

fn lvalue(src: &[char], pos: usize) -> (r: Result<(LuaLValue, usize), ParseError>)
    requires
        pos <= src@.len(),
    ensures
        same(r, target_at(src@, pos as int)),
        advances(r, src@.len(), pos),
    decreases src@.len() - pos, 0int,
{
    let (names, start) = match path(src, pos) {
        Ok(x) => x,
        Err(e) => {
            return Err(inside_at(e, Rule::LValue, pos));
        },
    };
    proof {
        lemma_names_view(names);
    }
    let ghost nv = names.deep_view();
    let mut target = LuaLValue::Dotted(names);
    assert(lvalue_view(target) == Target::Dotted(nv));
    let mut p: usize = start;
    loop
        invariant
            pos < start <= p <= src@.len(),
            subscripts_from(src@, start as int, Target::Dotted(nv)) == subscripts_from(
                src@,
                p as int,
                target@,
            ),
        ensures
            pos < p <= src@.len(),
            subscripts_from(src@, start as int, Target::Dotted(nv)) == (target@, p as int),
        decreases src@.len() - p,
    {
        if !at_char(src, p, '[') {
            break;
        }
        let p1 = skip_from(src, p + 1);
        match expr(src, p1) {
            Ok((index, e)) => {
                if !at_char(src, e, ']') {
                    break;
                }
                let ghost tv = target@;
                let ghost iv = index@;
                target = LuaLValue::Subscript(Box::new(target), index);
                assert(lvalue_view(target) == Target::Subscript(Box::new(tv), iv));
                p = skip_from(src, e + 1);
            },
            Err(_) => {
                break;
            },
        }
    }
    Ok((target, p))
}

fn assign(src: &[char], pos: usize) -> (r: Result<(LuaStmt, usize), ParseError>)
    requires
        pos <= src@.len(),
    ensures
        same(r, assign_at(src@, pos as int)),
        advances(r, src@.len(), pos),
    decreases src@.len() - pos, 1int,
{
    let (target, p1) = match lvalue(src, pos) {
        Ok(x) => x,
        Err(e) => {
            return Err(inside_at(e, Rule::Assign, pos));
        },
    };
    if !at_char(src, p1, '=') {
        return Err(stuck_at(Rule::Assign, p1));
    }
    let p2 = skip_from(src, p1 + 1);
    match expr(src, p2) {
        Ok((x, e)) => {
            let ghost tv = target@;
            let ghost xv = x@;
            let st = LuaStmt::Assign(target, x);
            assert(stmt_view(st) == Stmt::Assign(tv, xv));
            Ok((st, e))
        },
        Err(e) => Err(inside_at(e, Rule::Assign, p2)),
    }
}

fn local(src: &[char], pos: usize) -> (r: Result<((String, LuaExpr), usize), ParseError>)
    requires
        pos <= src@.len(),
    ensures
        same(r, local_at(src@, pos as int)),
        advances(r, src@.len(), pos),
    decreases src@.len() - pos, 0int,
{
    let after = match at_text(src, pos, "local") {
        Some(e) => e,
        None => {
            return Err(stuck_at(Rule::Local, pos));
        },
    };
    let p0 = skip_from(src, after);
    let (name, e) = match identifier(src, p0) {
        Ok(x) => x,
        Err(e) => {
            return Err(inside_at(e, Rule::Local, p0));
        },
    };
    let p1 = skip_from(src, e);
    if !at_char(src, p1, '=') {
        return Err(stuck_at(Rule::Local, p1));
    }
    let p2 = skip_from(src, p1 + 1);
    match expr(src, p2) {
        Ok((x, e2)) => Ok(((name, x), e2)),
        Err(e) => Err(inside_at(e, Rule::Local, p2)),
    }
}

fn else_branch(src: &[char], pos: usize) -> (r: (Vec<LuaStmt>, usize))
    requires
        pos <= src@.len(),
    ensures
        else_at(src@, pos as int) == (stmts_view(r.0@), r.1 as int),
        pos <= r.1 <= src@.len(),
    decreases src@.len() - pos, 4int,
{
    proof {
        reveal_strlit("else");
    }
    let none: Vec<LuaStmt> = Vec::new();
    assert(stmts_view(none@) =~= Seq::empty());
    let p0 = match at_text(src, pos, "else") {
        Some(e) => e,
        None => {
            return (none, pos);
        },
    };
    match block(src, skip_from(src, p0)) {
        Ok((list, e)) => (list, e),
        Err(_) => (none, pos),
    }
}

fn if_stmt(src: &[char], pos: usize) -> (r: Result<(LuaStmt, usize), ParseError>)
    requires
        pos <= src@.len(),
    ensures
        same(r, if_at(src@, pos as int)),
        advances(r, src@.len(), pos),
    decreases src@.len() - pos, 0int,
{
    proof {
        reveal_strlit("if");
        reveal_strlit("then");
    }
    let p0 = match at_text(src, pos, "if") {
        Some(e) => e,
        None => {
            return Err(stuck_at(Rule::If, pos));
        },
    };
    let p1 = skip_from(src, p0);
    let (cond, p2) = match expr(src, p1) {
        Ok(x) => x,
        Err(e) => {
            return Err(inside_at(e, Rule::If, p1));
        },
    };
    let after = match at_text(src, p2, "then") {
        Some(e) => e,
        None => {
            return Err(stuck_at(Rule::If, p2));
        },
    };
    let p3 = skip_from(src, after);
    let (then, p4) = match block(src, p3) {
        Ok(x) => x,
        Err(e) => {
            return Err(inside_at(e, Rule::If, p3));
        },
    };
    let (other, p5) = else_branch(src, p4);
    match at_text(src, p5, "end") {
        Some(e) => {
            let ghost cv = cond@;
            let ghost tv = stmts_view(then@);
            let ghost ov = stmts_view(other@);
            let st = LuaStmt::IfThen(cond, then, other);
            assert(stmt_view(st) == Stmt::IfThen(cv, tv, ov));
            Ok((st, skip_from(src, e)))
        },
        None => Err(stuck_at(Rule::If, p5)),
    }
}

fn data_extend(src: &[char], pos: usize) -> (r: Result<(LuaObject, usize), ParseError>)
    requires
        pos <= src@.len(),
    ensures
        same(r, data_extend_at(src@, pos as int)),
        advances(r, src@.len(), pos),
{
    let after = match at_text(src, pos, "data:extend(") {
        Some(e) => e,
        None => {
            return Err(stuck_at(Rule::DataExtend, pos));
        },
    };
    let p0 = skip_from(src, after);
    match object(src, p0) {
        Ok((v, e)) => if at_char(src, e, ')') {
            Ok((v, skip_from(src, e + 1)))
        } else {
            Err(stuck_at(Rule::DataExtend, e))
        },
        Err(e) => Err(inside_at(e, Rule::DataExtend, p0)),
    }
}

fn unhandled_body(src: &[char], pos: usize) -> (r: Result<(LuaExpr, usize), ParseError>)
    requires
        pos <= src@.len(),
    ensures
        same(r, unhandled_body_at(src@, pos as int)),
        match r {
            Ok((_, e)) => pos <= e <= src@.len(),
            Err(_) => true,
        },
{
    let mut p: usize = pos;
    loop
        invariant
            pos <= p <= src@.len(),
            find_text(src@, pos as int, "end"@) == find_text(src@, p as int, "end"@),
        decreases src@.len() - p,
    {
        if at_text(src, p, "end").is_some() {
            let v = LuaObject::Str(text_of(src, pos, p));
            let ghost vv = v@;
            let x = LuaExpr::Literal(v);
            assert(expr_view(x) == Expr::Literal(vv));
            return Ok((x, p));
        }
        if p >= src.len() {
            return Err(stuck_at(Rule::UnhandledBody, pos));
        }
        p += 1;
    }
}

/// What a parser gives its caller: the text that is left, and the value; or the trail of
/// the rules that did not match the start of the text.
pub open spec fn parsed<T: DeepView>(
    r: Result<(&str, T), ParseError>,
    s: Text,
    m: Parsed<T::V>,
) -> bool {
    match m {
        Ok((v, e)) => match r {
            Ok((rest, x)) => rest@ == s.subrange(e, s.len() as int) && x.deep_view() == v,
            Err(_) => false,
        },
        Err(t) => match r {
            Ok(_) => false,
            Err(f) => f@ == t,
        },
    }
}

/// Hands a parser's answer on a whole text to the caller.
fn finish<'a, T>(input: &'a str, total: usize, r: Result<(T, usize), ParseError>) -> (out: Result<
    (&'a str, T),
    ParseError,
>)
    requires
        total == input@.len(),
        match r {
            Ok((_, e)) => e <= total,
            Err(_) => true,
        },
    ensures
        match r {
            Ok((v, e)) => match out {
                Ok((rest, x)) => rest@ == input@.subrange(e as int, total as int) && x == v,
                Err(_) => false,
            },
            Err(f) => out == Err::<(&str, T), ParseError>(f),
        },
{
    match r {
        Ok((v, e)) => Ok((input.substring_char(e, total), v)),
        Err(f) => Err(f),
    }
}

/// Runs over insignificant text: blank space, and comments from `--` to the end of
/// their line. It cannot fail.
pub fn whitespace<'a>(input: &'a str) -> (r: Result<(&'a str, ()), ParseError>)
    ensures
        match r {
            Ok((rest, _)) => rest@ == input@.subrange(skip(input@, 0), input@.len() as int)
                && skip(rest@, 0) == 0,
            Err(_) => false,
        },
{
    let src = chars_of(input);
    let e = skip_from(&src, 0);
    let rest = input.substring_char(e, src.len());
    proof {
        lemma_skip_idempotent(input@, 0);
        lemma_skip_suffix(input@, e as int);
    }
    Ok((rest, ()))
}

/// Runs over a `,` and the insignificant text after it.
pub fn commaspace<'a>(input: &'a str) -> (r: Result<(&'a str, ()), ParseError>)
    ensures
        match r {
            Ok((rest, _)) => has_char(input@, 0, ',') && rest@ == input@.subrange(
                skip(input@, 1),
                input@.len() as int,
            ),
            Err(e) => !has_char(input@, 0, ',') && e@ == stuck(Rule::Comma, 0),
        },
{
    let src = chars_of(input);
    if at_char(&src, 0, ',') {
        let e = skip_from(&src, 1);
        Ok((input.substring_char(e, src.len()), ()))
    } else {
        Err(stuck_at(Rule::Comma, 0))
    }
}

/// Parses `true` or `false`.
pub fn parse_bool<'a>(input: &'a str) -> (r: Result<(&'a str, LuaObject), ParseError>)
    ensures
        parsed(r, input@, bool_at(input@, 0)),
{
    let src = chars_of(input);
    finish(input, src.len(), boolean(&src, 0))
}

/// Parses a numeric literal.
pub fn parse_num<'a>(input: &'a str) -> (r: Result<(&'a str, LuaObject), ParseError>)
    ensures
        parsed(r, input@, num_at(input@, 0)),
{
    let src = chars_of(input);
    finish(input, src.len(), number(&src, 0))
}

/// Parses a string literal.
pub fn parse_str<'a>(input: &'a str) -> (r: Result<(&'a str, LuaObject), ParseError>)
    ensures
        parsed(r, input@, str_at(input@, 0)),
{
    let src = chars_of(input);
    finish(input, src.len(), string(&src, 0))
}

/// Parses an identifier. Nothing after it is skipped.
pub fn parse_identifier<'a>(input: &'a str) -> (r: Result<(&'a str, String), ParseError>)
    ensures
        parsed(r, input@, identifier_at(input@, 0)),
{
    let src = chars_of(input);
    finish(input, src.len(), identifier(&src, 0))
}

/// Parses a dotted path.
pub fn parse_namespaced<'a>(input: &'a str) -> (r: Result<(&'a str, Vec<String>), ParseError>)
    ensures
        parsed(r, input@, path_at(input@, 0)),
{
    let src = chars_of(input);
    finish(input, src.len(), path(&src, 0))
}

/// Parses a value.
pub fn parse_object<'a>(input: &'a str) -> (r: Result<(&'a str, LuaObject), ParseError>)
    ensures
        parsed(r, input@, object_at(input@, 0)),
{
    let src = chars_of(input);
    finish(input, src.len(), object(&src, 0))
}

/// Parses a field of a table.
pub fn parse_field<'a>(input: &'a str) -> (r: Result<(&'a str, (String, LuaObject)), ParseError>)
    ensures
        parsed(r, input@, field_at(input@, 0)),
{
    let src = chars_of(input);
    finish(input, src.len(), field(&src, 0))
}

/// Parses a table.
pub fn parse_map<'a>(input: &'a str) -> (r: Result<(&'a str, LuaObject), ParseError>)
    ensures
        parsed(r, input@, table_at(input@, 0)),
{
    let src = chars_of(input);
    finish(input, src.len(), table(&src, 0))
}

/// Parses an array.
pub fn parse_array<'a>(input: &'a str) -> (r: Result<(&'a str, LuaObject), ParseError>)
    ensures
        parsed(r, input@, array_at(input@, 0)),
{
    let src = chars_of(input);
    finish(input, src.len(), array(&src, 0))
}

/// Parses one registration call and returns what it was given.
pub fn parse_data_extend<'a>(input: &'a str) -> (r: Result<(&'a str, LuaObject), ParseError>)
    ensures
        parsed(r, input@, data_extend_at(input@, 0)),
{
    let src = chars_of(input);
    finish(input, src.len(), data_extend(&src, 0))
}

/// Parses a `local` binding.
pub fn parse_local<'a>(input: &'a str) -> (r: Result<(&'a str, (String, LuaExpr)), ParseError>)
    ensures
        parsed(r, input@, local_at(input@, 0)),
{
    let src = chars_of(input);
    finish(input, src.len(), local(&src, 0))
}

/// Parses a call.
pub fn parse_funcall<'a>(input: &'a str) -> (r: Result<(&'a str, LuaExpr), ParseError>)
    ensures
        parsed(r, input@, funcall_at(input@, 0)),
{
    let src = chars_of(input);
    finish(input, src.len(), funcall(&src, 0))
}

/// Parses a `return` statement.
pub fn parse_return<'a>(input: &'a str) -> (r: Result<(&'a str, LuaStmt), ParseError>)
    ensures
        parsed(r, input@, return_at(input@, 0)),
{
    let src = chars_of(input);
    finish(input, src.len(), return_stmt(&src, 0))
}

/// Parses an expression.
pub fn parse_expr<'a>(input: &'a str) -> (r: Result<(&'a str, LuaExpr), ParseError>)
    ensures
        parsed(r, input@, expr_at(input@, 0)),
{
    let src = chars_of(input);
    finish(input, src.len(), expr(&src, 0))
}

/// Parses an assignment target.
pub fn parse_lvalue<'a>(input: &'a str) -> (r: Result<(&'a str, LuaLValue), ParseError>)
    ensures
        parsed(r, input@, target_at(input@, 0)),
{
    let src = chars_of(input);
    finish(input, src.len(), lvalue(&src, 0))
}

/// Parses a statement.
pub fn parse_stmt<'a>(input: &'a str) -> (r: Result<(&'a str, LuaStmt), ParseError>)
    ensures
        parsed(r, input@, stmt_at(input@, 0)),
{
    let src = chars_of(input);
    finish(input, src.len(), stmt(&src, 0))
}

/// Parses a function definition, with its name where `named` and without where not.
pub fn parse_function<'a>(named: bool, input: &'a str) -> (r: Result<
    (&'a str, (Option<String>, LuaFunction)),
    ParseError,
>)
    ensures
        parsed(r, input@, function_at(input@, 0, named)),
{
    let src = chars_of(input);
    finish(input, src.len(), function(&src, 0, named))
}

/// Parses a function definition with its name.
/// What a function definition gives once the caller's own parser has answered `named`
/// for the place of the name, `at` characters into the text. Where that parser failed,
/// its trail goes on with the function. Where it matched, the rest of the definition is
/// read from the text that it left, and the places of a trail count from the start of
/// that text.
pub open spec fn function_after_name<T>(
    r: Result<(&str, (T, LuaFunction)), ParseError>,
    at: int,
    named: Result<(&str, T), ParseError>,
) -> bool {
    match named {
        Err(e) => match r {
            Ok(_) => false,
            Err(f) => f@ == inside(e@, Rule::Function, at),
        },
        Ok((rest, name)) => match function_tail_at(rest@, 0) {
            Ok((func, e)) => match r {
                Ok((left, x)) => left@ == rest@.subrange(e, rest@.len() as int) && x.0 == name
                    && x.1@ == func,
                Err(_) => false,
            },
            Err(t) => match r {
                Ok(_) => false,
                Err(f) => f@ == t,
            },
        },
    }
}

/// Reads what follows the name of a function, given what the caller's parser made of
/// the place of the name.
pub fn finish_function<'a, T>(named: Result<(&'a str, T), ParseError>, at: usize) -> (r: Result<
    (&'a str, (T, LuaFunction)),
    ParseError,
>)
    ensures
        function_after_name(r, at as int, named),
{
    match named {
        Err(e) => Err(inside_at(e, Rule::Function, at)),
        Ok((rest, name)) => {
            let src = chars_of(rest);
            match function_tail(&src, 0) {
                Ok((f, e)) => Ok((rest.substring_char(e, src.len()), (name, f))),
                Err(e) => Err(e),
            }
        },
    }
}

/// Parses a function definition whose name position the caller's parser `f` reads:
/// `function`, what `f` reads, the parameters in parentheses, one or more statements,
/// and `end`. `f` is handed the text after `function` and what is skipped after it.
pub fn parse_function_with<'a, T, F: FnOnce(&'a str) -> Result<(&'a str, T), ParseError>>(
    f: F,
    input: &'a str,
) -> (r: Result<(&'a str, (T, LuaFunction)), ParseError>)
    requires
        forall|rest: &'a str| call_requires(f, (rest,)),
    ensures
        !has_text(input@, 0, "function"@) ==> match r {
            Ok(_) => false,
            Err(e) => e@ == stuck(Rule::Function, 0),
        },
        has_text(input@, 0, "function"@) ==> exists|
            rest: &'a str,
            named: Result<(&'a str, T), ParseError>,
        |
            {
                &&& rest@ == input@.subrange(
                    skip(input@, "function"@.len() as int),
                    input@.len() as int,
                )
                &&& call_ensures(f, (rest,), named)
                &&& function_after_name(r, skip(input@, "function"@.len() as int), named)
            },
{
    let src = chars_of(input);
    match at_text(&src, 0, "function") {
        None => Err(stuck_at(Rule::Function, 0)),
        Some(e) => {
            let p0 = skip_from(&src, e);
            let rest = input.substring_char(p0, src.len());
            let named = f(rest);
            finish_function(named, p0)
        },
    }
}

pub fn parse_named_function<'a>(input: &'a str) -> (r: Result<
    (&'a str, (String, LuaFunction)),
    ParseError,
>)
    ensures
        match function_at(input@, 0, true) {
            Ok((f, e)) => match r {
                Ok((rest, x)) => rest@ == input@.subrange(e, input@.len() as int) && Some(x.0@)
                    == f.0 && x.1@ == f.1,
                Err(_) => false,
            },
            Err(t) => match r {
                Ok(_) => false,
                Err(f) => f@ == t,
            },
        },
{
    match parse_function(true, input) {
        Ok((rest, f)) => match f.0 {
            Some(name) => Ok((rest, (name, f.1))),
            None => Err(stuck_at(Rule::Function, 0)),
        },
        Err(e) => Err(e),
    }
}

/// Parses a function definition without a name.
pub fn parse_anon_function<'a>(input: &'a str) -> (r: Result<(&'a str, LuaFunction), ParseError>)
    ensures
        match function_at(input@, 0, false) {
            Ok((f, e)) => match r {
                Ok((rest, x)) => rest@ == input@.subrange(e, input@.len() as int) && x@ == f.1,
                Err(_) => false,
            },
            Err(t) => match r {
                Ok(_) => false,
                Err(f) => f@ == t,
            },
        },
{
    match parse_function(false, input) {
        Ok((rest, f)) => Ok((rest, f.1)),
        Err(e) => Err(e),
    }
}

/// Takes the text up to the first `end` as a string value.
pub fn parse_unhandled_body<'a>(input: &'a str) -> (r: Result<(&'a str, LuaExpr), ParseError>)
    ensures
        parsed(r, input@, unhandled_body_at(input@, 0)),
{
    let src = chars_of(input);
    finish(input, src.len(), unhandled_body(&src, 0))
}

/// What one pass over a source gathers: its top-level bindings and functions, and what
/// its registration calls were given.
#[derive(Debug, PartialEq)]
pub struct LuaContext {
    pub locals: Dict<LuaExpr>,
    pub functions: Dict<LuaFunction>,
    pub data_extends: Vec<LuaObject>,
}

impl DeepView for LuaContext {
    type V = Gathered;

    open spec fn deep_view(&self) -> Gathered {
        Gathered {
            locals: self.locals.deep_view(),
            functions: self.functions.deep_view(),
            data_extends: self.data_extends.deep_view(),
        }
    }
}

impl LuaContext {
    /// A pass that has gathered nothing yet.
    pub fn new() -> (c: Self)
        ensures
            c.deep_view() == (Gathered {
                locals: Map::empty(),
                functions: Map::empty(),
                data_extends: Seq::empty(),
            }),
    {
        let c = LuaContext {
            locals: Dict::new(),
            functions: Dict::new(),
            data_extends: Vec::new(),
        };
        assert(c.data_extends.deep_view() =~= Seq::empty());
        c
    }

    /// Parses the top-level form at `pos` and adds it to what is gathered. Where there is
    /// none, nothing changes.
    fn toplevel(&mut self, src: &[char], pos: usize) -> (r: Result<usize, ParseError>)
        requires
            pos <= src@.len(),
        ensures
            match toplevel_at(src@, pos as int) {
                Ok((form, e)) => r == Ok::<usize, ParseError>(e as usize) && pos < e <= src@.len()
                    && final(self).deep_view() == old(self).deep_view().with_form(form),
                Err(t) => *final(self) == *old(self) && match r {
                    Ok(_) => false,
                    Err(f) => f@ == t,
                },
            },
    {
        reveal(toplevel_at);
        if let Ok((v, e)) = data_extend(src, pos) {
            let ghost before = self.data_extends.deep_view();
            let ghost vv = v@;
            self.data_extends.push(v);
            assert(self.data_extends.deep_view() =~= before.push(vv));
            return Ok(e);
        }
        if let Ok((binding, e)) = local(src, pos) {
            self.locals.insert(binding.0, binding.1);
            return Ok(e);
        }
        if let Ok((f, e)) = function(src, pos, true) {
            match f.0 {
                Some(name) => {
                    self.functions.insert(name, f.1);
                    return Ok(e);
                },
                None => {
                    return Err(stuck_at(Rule::TopLevel, pos));
                },
            }
        }
        match stmt(src, pos) {
            Ok((_, e)) => Ok(e),
            Err(e) => Err(inside_at(e, Rule::TopLevel, pos)),
        }
    }

    /// Parses one top-level form at the start of `input`: a registration call, whose
    /// value joins the list; a `local` binding or a function with a name, which is bound
    /// in its table; or any statement, which is dropped. Where the text starts with no
    /// form, nothing that was gathered changes.
    pub fn parse_toplevel<'a>(&mut self, input: &'a str) -> (r: Result<(&'a str, ()), ParseError>)
        ensures
            match toplevel_at(input@, 0) {
                Ok((form, e)) => final(self).deep_view() == old(self).deep_view().with_form(form)
                    && match r {
                    Ok((rest, _)) => rest@ == input@.subrange(e, input@.len() as int),
                    Err(_) => false,
                },
                Err(t) => *final(self) == *old(self) && match r {
                    Ok(_) => false,
                    Err(f) => f@ == t,
                },
            },
    {
        let src = chars_of(input);
        match self.toplevel(&src, 0) {
            Ok(e) => Ok((input.substring_char(e, src.len()), ())),
            Err(f) => Err(f),
        }
    }

    /// Parses a whole source: the insignificant text at its start, then form after form
    /// until the text ends. Where a form is missing, the pass fails with the trail of
    /// that form, and what was gathered is what the forms before it gave.
    pub fn parse_all<'a>(&mut self, input: &'a str) -> (r: Result<(&'a str, ()), ParseError>)
        ensures
            final(self).deep_view() == forms_from(
                input@,
                skip(input@, 0),
                old(self).deep_view(),
            ).0,
            match forms_from(input@, skip(input@, 0), old(self).deep_view()).1 {
                None => match r {
                    Ok((rest, _)) => rest@.len() == 0,
                    Err(_) => false,
                },
                Some(t) => match r {
                    Ok(_) => false,
                    Err(f) => f@ == t,
                },
            },
    {
        let src = chars_of(input);
        let start = skip_from(&src, 0);
        let mut p: usize = start;
        loop
            invariant
                p <= src@.len(),
                src@ == input@,
                start == skip(input@, 0),
                forms_from(input@, start as int, old(self).deep_view()) == forms_from(
                    input@,
                    p as int,
                    self.deep_view(),
                ),
            decreases src@.len() - p,
        {
            match self.toplevel(&src, p) {
                Ok(e) => {
                    p = e;
                    if p == src.len() {
                        return Ok((input.substring_char(p, p), ()));
                    }
                },
                Err(f) => {
                    return Err(f);
                },
            }
        }
    }
}

} // verus!
