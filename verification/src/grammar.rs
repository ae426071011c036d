use crate::lexer::{has_char, has_text, is_letter, run_end, skip, CharClass};
use crate::model::{Expr, Form, Func, Gathered, Stmt, Target, Text, Value};
use crate::numbers::{float_literal, int_literal};
use crate::tree::{BinaryOp, UnaryOp};
use vstd::prelude::*;

verus! {

/// The rules of the grammar.
#[derive(Debug, Clone, Copy, PartialEq, Eq, Structural)]
pub enum Rule {
    Comma,
    Bool,
    Num,
    Str,
    Identifier,
    Namespaced,
    Object,
    Field,
    Table,
    Array,
    Funcall,
    Binop,
    Unop,
    Paren,
    Expr,
    LValue,
    Return,
    Assign,
    Local,
    If,
    Stmt,
    Block,
    Function,
    UnhandledBody,
    DataExtend,
    TopLevel,
}

/// A rule that was being tried, and how many characters of the text stand before the
/// place where it could not go on.
#[derive(Debug, Clone, Copy, PartialEq, Eq, Structural)]
pub struct Frame {
    pub rule: Rule,
    pub at: usize,
}

/// Why a rule did not match: the rules that were being tried, the innermost first.
pub type Trail = Seq<Frame>;

/// What a rule makes of a text from a position on: a value and the position after all
/// that the rule consumed, or the trail of the rules that did not match.
pub type Parsed<T> = Result<(T, int), Trail>;

/// The trail of a rule that finds at `at` none of what it needs.
pub open spec fn stuck(rule: Rule, at: int) -> Trail {
    seq![Frame { rule, at: at as usize }]
}

/// The trail of a rule of which a part, tried at `at`, did not match and left `trail`.
pub open spec fn inside(trail: Trail, rule: Rule, at: int) -> Trail {
    trail.push(Frame { rule, at: at as usize })
}

/// `q` lies after `p` and within `s`. A rule that goes on after a part of it, from the
/// place where that part ended, first tests that this place lies ahead: that makes the
/// grammar well founded. Every part that matches ends ahead, so the test turns no match
/// down.
pub open spec fn ahead(s: Text, p: int, q: int) -> bool {
    p < q <= s.len()
}

/// The words that are no identifiers.
pub open spec fn is_reserved(name: Text) -> bool {
    ||| name == "return"@
    ||| name == "true"@
    ||| name == "false"@
    ||| name == "if"@
    ||| name == "then"@
    ||| name == "else"@
    ||| name == "end"@
}

/// An identifier: a letter or `_`, then letters, digits and `_`; no reserved word.
/// Nothing after it is skipped.
pub open spec fn identifier_at(s: Text, p: int) -> Parsed<Text> {
    if 0 <= p < s.len() && (is_letter(s[p]) || s[p] == '_') {
        let e = run_end(s, p + 1, CharClass::Word);
        if is_reserved(s.subrange(p, e)) {
            Err(stuck(Rule::Identifier, p))
        } else {
            Ok((s.subrange(p, e), e))
        }
    } else {
        Err(stuck(Rule::Identifier, p))
    }
}

/// After an identifier at `p`: the further identifiers, each after a `.`.
pub open spec fn path_from(s: Text, p: int, names: Seq<Text>) -> (Seq<Text>, int)
    decreases s.len() - p,
{
    if has_char(s, p, '.') {
        match identifier_at(s, p + 1) {
            Ok((name, e)) => if ahead(s, p, e) {
                path_from(s, e, names.push(name))
            } else {
                (names, p)
            },
            Err(_) => (names, p),
        }
    } else {
        (names, p)
    }
}

/// A dotted path: identifiers joined by `.`, and the insignificant text after them.
pub open spec fn path_at(s: Text, p: int) -> Parsed<Seq<Text>> {
    match identifier_at(s, p) {
        Ok((name, e)) => {
            let rest = path_from(s, e, seq![name]);
            Ok((rest.0, skip(s, rest.1)))
        },
        Err(t) => Err(inside(t, Rule::Namespaced, p)),
    }
}

/// `true` or `false`, and the insignificant text after it.
pub open spec fn bool_at(s: Text, p: int) -> Parsed<Value> {
    if has_text(s, p, "true"@) {
        Ok((Value::Bool(true), skip(s, p + "true"@.len())))
    } else if has_text(s, p, "false"@) {
        Ok((Value::Bool(false), skip(s, p + "false"@.len())))
    } else {
        Err(stuck(Rule::Bool, p))
    }
}

/// The number that `s` writes from `p` to `e`: an integer where it is one that an `i64`
/// holds, else a decimal fraction, kept as its text.
pub open spec fn number_of(s: Text, p: int, e: int) -> Option<Value> {
    match int_literal(s, p, e) {
        Some(i) => Some(Value::Int(i)),
        None => if float_literal(s, p, e) {
            Some(Value::Float(s.subrange(p, e)))
        } else {
            None
        },
    }
}

/// A numeric literal: the longest run of digits, `.` and `-`, which must write a number;
/// and the insignificant text after it.
pub open spec fn num_at(s: Text, p: int) -> Parsed<Value> {
    let e = run_end(s, p, CharClass::Numeric);
    match number_of(s, p, e) {
        Some(v) => Ok((v, skip(s, e))),
        None => Err(stuck(Rule::Num, p)),
    }
}

/// A string literal: `"`, the longest run without `"` and `\`, taken as it is, and `"`;
/// and the insignificant text after it.
pub open spec fn str_at(s: Text, p: int) -> Parsed<Value> {
    if has_char(s, p, '"') {
        let e = run_end(s, p + 1, CharClass::Quoted);
        if has_char(s, e, '"') {
            Ok((Value::Str(s.subrange(p + 1, e)), skip(s, e + 1)))
        } else {
            Err(stuck(Rule::Str, e))
        }
    } else {
        Err(stuck(Rule::Str, p))
    }
}

/// The position after a `,` at `p` and what it skips, or `p` where there is none.
pub open spec fn past_comma(s: Text, p: int) -> int {
    if has_char(s, p, ',') {
        skip(s, p + 1)
    } else {
        p
    }
}

/// A value: a number, a boolean, a string, a table, an array or a dotted name, tried in
/// this order. Where none matches, the trail is that of the dotted name.
pub open spec fn object_at(s: Text, p: int) -> Parsed<Value>
    decreases s.len() - p, 1int,
{
    if num_at(s, p) is Ok {
        num_at(s, p)
    } else if bool_at(s, p) is Ok {
        bool_at(s, p)
    } else if str_at(s, p) is Ok {
        str_at(s, p)
    } else if table_at(s, p) is Ok {
        table_at(s, p)
    } else if array_at(s, p) is Ok {
        array_at(s, p)
    } else {
        match path_at(s, p) {
            Ok((names, e)) => Ok((Value::Expr(Box::new(Expr::Var(names))), e)),
            Err(t) => Err(inside(t, Rule::Object, p)),
        }
    }
}

/// A field of a table: an identifier, `=` and a value.
pub open spec fn field_at(s: Text, p: int) -> Parsed<(Text, Value)>
    decreases s.len() - p, 0int,
{
    match identifier_at(s, p) {
        Ok((name, e)) => {
            let p1 = skip(s, e);
            let p2 = skip(s, p1 + 1);
            if has_char(s, p1, '=') && ahead(s, p, p2) {
                match object_at(s, p2) {
                    Ok((v, e2)) => Ok(((name, v), e2)),
                    Err(t) => Err(inside(t, Rule::Field, p2)),
                }
            } else {
                Err(stuck(Rule::Field, p1))
            }
        },
        Err(t) => Err(inside(t, Rule::Field, p)),
    }
}

/// After a field that ends at `p`: the further fields, each after a `,`. A key that
/// comes again gets the later value.
pub open spec fn fields_from(s: Text, p: int, entries: Map<Text, Value>) -> (
    Map<Text, Value>,
    int,
)
    decreases s.len() - p, 0int,
{
    let p1 = past_comma(s, p);
    if has_char(s, p, ',') && ahead(s, p, p1) {
        match field_at(s, p1) {
            Ok((f, e)) => if ahead(s, p1, e) {
                fields_from(s, e, entries.insert(f.0, f.1))
            } else {
                (entries, p)
            },
            Err(_) => (entries, p),
        }
    } else {
        (entries, p)
    }
}

/// A table: `{`, fields separated by `,`, with or without a `,` after the last, and `}`.
/// It may be empty. Its value is the mapping from the keys of its fields to their values.
pub open spec fn table_at(s: Text, p: int) -> Parsed<Value>
    decreases s.len() - p, 0int,
{
    let p1 = skip(s, p + 1);
    if has_char(s, p, '{') && ahead(s, p, p1) {
        let body = match field_at(s, p1) {
            Ok((f, e)) => if ahead(s, p1, e) {
                fields_from(s, e, Map::empty().insert(f.0, f.1))
            } else {
                (Map::empty(), p1)
            },
            Err(_) => (Map::empty(), p1),
        };
        let q = past_comma(s, body.1);
        if has_char(s, q, '}') {
            Ok((Value::Table(body.0), skip(s, q + 1)))
        } else {
            Err(stuck(Rule::Table, q))
        }
    } else {
        Err(stuck(Rule::Table, p))
    }
}

/// After a value that ends at `p`: the further values, each after a `,`.
pub open spec fn items_from(s: Text, p: int, items: Seq<Value>) -> (Seq<Value>, int)
    decreases s.len() - p, 0int,
{
    let p1 = past_comma(s, p);
    if has_char(s, p, ',') && ahead(s, p, p1) {
        match object_at(s, p1) {
            Ok((v, e)) => if ahead(s, p1, e) {
                items_from(s, e, items.push(v))
            } else {
                (items, p)
            },
            Err(_) => (items, p),
        }
    } else {
        (items, p)
    }
}

/// An array: `{`, one or more values separated by `,`, with or without a `,` after the
/// last, and `}`.
pub open spec fn array_at(s: Text, p: int) -> Parsed<Value>
    decreases s.len() - p, 0int,
{
    let p1 = skip(s, p + 1);
    if has_char(s, p, '{') && ahead(s, p, p1) {
        match object_at(s, p1) {
            Ok((v, e)) => if ahead(s, p1, e) {
                let body = items_from(s, e, seq![v]);
                let q = past_comma(s, body.1);
                if has_char(s, q, '}') {
                    Ok((Value::Array(body.0), skip(s, q + 1)))
                } else {
                    Err(stuck(Rule::Array, q))
                }
            } else {
                Err(stuck(Rule::Array, p1))
            },
            Err(t) => Err(inside(t, Rule::Array, p1)),
        }
    } else {
        Err(stuck(Rule::Array, p))
    }
}

/// An infix operator: `..`, `==`, `~=`, `+`, `-`, `*` or `/`, and where it ends. Nothing
/// after it is skipped.
pub open spec fn operator_at(s: Text, p: int) -> Option<(BinaryOp, int)> {
    if has_char(s, p, '.') && has_char(s, p + 1, '.') {
        Some((BinaryOp::Concat, p + 2))
    } else if has_char(s, p, '=') && has_char(s, p + 1, '=') {
        Some((BinaryOp::Eq, p + 2))
    } else if has_char(s, p, '~') && has_char(s, p + 1, '=') {
        Some((BinaryOp::Ne, p + 2))
    } else if has_char(s, p, '+') {
        Some((BinaryOp::Add, p + 1))
    } else if has_char(s, p, '-') {
        Some((BinaryOp::Sub, p + 1))
    } else if has_char(s, p, '*') {
        Some((BinaryOp::Mul, p + 1))
    } else if has_char(s, p, '/') {
        Some((BinaryOp::Div, p + 1))
    } else {
        None
    }
}

/// After a parameter that ends at `p`: the further parameters, each after a `,`.
pub open spec fn params_from(s: Text, p: int, names: Seq<Text>) -> (Seq<Text>, int)
    decreases s.len() - p,
{
    let p1 = past_comma(s, p);
    if has_char(s, p, ',') && ahead(s, p, p1) {
        match identifier_at(s, p1) {
            Ok((name, e)) => if ahead(s, p1, e) {
                params_from(s, e, names.push(name))
            } else {
                (names, p)
            },
            Err(_) => (names, p),
        }
    } else {
        (names, p)
    }
}

/// The parameters of a function: identifiers separated by `,`, or none.
pub open spec fn params_at(s: Text, p: int) -> (Seq<Text>, int) {
    match identifier_at(s, p) {
        Ok((name, e)) => params_from(s, e, seq![name]),
        Err(_) => (Seq::empty(), p),
    }
}

/// What stands where a function has its name: an identifier and the insignificant text
/// after it where `named`, nothing where not.
pub open spec fn name_position_at(s: Text, p: int, named: bool) -> Parsed<Option<Text>> {
    if named {
        match identifier_at(s, p) {
            Ok((name, e)) => Ok((Some(name), skip(s, e))),
            Err(t) => Err(t),
        }
    } else {
        Ok((None, p))
    }
}

/// An expression: a function without a name, a call, an infix operation, a prefix
/// operation, an expression in parentheses or a value, tried in this order. Where none
/// matches, the trail is that of the value.
pub open spec fn expr_at(s: Text, p: int) -> Parsed<Expr>
    decreases s.len() - p, 1int,
{
    if function_at(s, p, false) is Ok {
        match function_at(s, p, false) {
            Ok((f, e)) => Ok((Expr::Fundef(Box::new(f.1)), e)),
            Err(t) => Err(t),
        }
    } else if funcall_at(s, p) is Ok {
        funcall_at(s, p)
    } else if binop_at(s, p) is Ok {
        binop_at(s, p)
    } else if unop_at(s, p) is Ok {
        unop_at(s, p)
    } else if paren_at(s, p) is Ok {
        paren_at(s, p)
    } else {
        match object_at(s, p) {
            Ok((v, e)) => Ok((Expr::Literal(v), e)),
            Err(t) => Err(inside(t, Rule::Expr, p)),
        }
    }
}

/// After an argument that ends at `p`: the further arguments, each after a `,`.
pub open spec fn args_from(s: Text, p: int, args: Seq<Expr>) -> (Seq<Expr>, int)
    decreases s.len() - p, 0int,
{
    let p1 = past_comma(s, p);
    if has_char(s, p, ',') && ahead(s, p, p1) {
        match expr_at(s, p1) {
            Ok((x, e)) => if ahead(s, p1, e) {
                args_from(s, e, args.push(x))
            } else {
                (args, p)
            },
            Err(_) => (args, p),
        }
    } else {
        (args, p)
    }
}

/// The arguments of a call: expressions separated by `,`, or none.
pub open spec fn args_at(s: Text, p: int) -> (Seq<Expr>, int)
    decreases s.len() - p, 2int,
{
    match expr_at(s, p) {
        Ok((x, e)) => if ahead(s, p, e) {
            args_from(s, e, seq![x])
        } else {
            (Seq::empty(), p)
        },
        Err(_) => (Seq::empty(), p),
    }
}

/// A call: a dotted path, and its arguments in parentheses.
pub open spec fn funcall_at(s: Text, p: int) -> Parsed<Expr>
    decreases s.len() - p, 0int,
{
    match path_at(s, p) {
        Ok((names, p1)) => {
            let p2 = skip(s, p1 + 1);
            if has_char(s, p1, '(') && ahead(s, p, p2) {
                let args = args_at(s, p2);
                if has_char(s, args.1, ')') {
                    Ok((Expr::Funcall(names, args.0), skip(s, args.1 + 1)))
                } else {
                    Err(stuck(Rule::Funcall, args.1))
                }
            } else {
                Err(stuck(Rule::Funcall, p1))
            }
        },
        Err(t) => Err(inside(t, Rule::Funcall, p)),
    }
}

/// An infix operation: a value, an operator, and all that follows as one expression. No
/// operator binds tighter than another.
pub open spec fn binop_at(s: Text, p: int) -> Parsed<Expr>
    decreases s.len() - p, 0int,
{
    match object_at(s, p) {
        Ok((left, p1)) => match operator_at(s, p1) {
            Some((op, p2)) => {
                let p3 = skip(s, p2);
                if ahead(s, p, p3) {
                    match expr_at(s, p3) {
                        Ok((right, e)) => Ok(
                            (
                                Expr::Binop(
                                    op,
                                    Box::new(Expr::Literal(left)),
                                    Box::new(right),
                                ),
                                e,
                            ),
                        ),
                        Err(t) => Err(inside(t, Rule::Binop, p3)),
                    }
                } else {
                    Err(stuck(Rule::Binop, p1))
                }
            },
            None => Err(stuck(Rule::Binop, p1)),
        },
        Err(t) => Err(inside(t, Rule::Binop, p)),
    }
}

/// A prefix operation: `#` and an expression.
pub open spec fn unop_at(s: Text, p: int) -> Parsed<Expr>
    decreases s.len() - p, 0int,
{
    let p1 = skip(s, p + 1);
    if has_char(s, p, '#') && ahead(s, p, p1) {
        match expr_at(s, p1) {
            Ok((x, e)) => Ok((Expr::Unop(UnaryOp::Len, Box::new(x)), e)),
            Err(t) => Err(inside(t, Rule::Unop, p1)),
        }
    } else {
        Err(stuck(Rule::Unop, p))
    }
}

/// An expression in parentheses.
pub open spec fn paren_at(s: Text, p: int) -> Parsed<Expr>
    decreases s.len() - p, 0int,
{
    let p1 = skip(s, p + 1);
    if has_char(s, p, '(') && ahead(s, p, p1) {
        match expr_at(s, p1) {
            Ok((x, e)) => if has_char(s, e, ')') {
                Ok((x, skip(s, e + 1)))
            } else {
                Err(stuck(Rule::Paren, e))
            },
            Err(t) => Err(inside(t, Rule::Paren, p1)),
        }
    } else {
        Err(stuck(Rule::Paren, p))
    }
}

/// What follows the name of a function: the parameters in parentheses, one or more
/// statements, and `end`.
pub open spec fn function_tail_at(s: Text, p: int) -> Parsed<Func>
    decreases s.len() - p, 0int,
{
    let params = params_at(s, skip(s, p + 1));
    let p2 = skip(s, params.1 + 1);
    if !has_char(s, p, '(') {
        Err(stuck(Rule::Function, p))
    } else if has_char(s, params.1, ')') && ahead(s, p, p2) {
        match block_at(s, p2) {
            Ok((body, p3)) => if has_text(s, p3, "end"@) {
                Ok((Func { args: params.0, body }, skip(s, p3 + "end"@.len())))
            } else {
                Err(stuck(Rule::Function, p3))
            },
            Err(t) => Err(inside(t, Rule::Function, p2)),
        }
    } else {
        Err(stuck(Rule::Function, params.1))
    }
}

/// A function definition: `function`, the name where `named`, the parameters in
/// parentheses, one or more statements, and `end`.
pub open spec fn function_at(s: Text, p: int, named: bool) -> Parsed<(Option<Text>, Func)>
    decreases s.len() - p, 0int,
{
    if has_text(s, p, "function"@) {
        let p0 = skip(s, p + "function"@.len());
        match name_position_at(s, p0, named) {
            Ok((name, p1)) => if ahead(s, p, p1) {
                match function_tail_at(s, p1) {
                    Ok((f, e)) => Ok(((name, f), e)),
                    Err(t) => Err(t),
                }
            } else {
                Err(stuck(Rule::Function, p1))
            },
            Err(t) => Err(inside(t, Rule::Function, p0)),
        }
    } else {
        Err(stuck(Rule::Function, p))
    }
}

/// After a statement that ends at `p`: the further statements.
pub open spec fn stmts_from(s: Text, p: int, stmts: Seq<Stmt>) -> (Seq<Stmt>, int)
    decreases s.len() - p, 3int,
{
    match stmt_at(s, p) {
        Ok((st, e)) => if ahead(s, p, e) {
            stmts_from(s, e, stmts.push(st))
        } else {
            (stmts, p)
        },
        Err(_) => (stmts, p),
    }
}

/// One or more statements.
pub open spec fn block_at(s: Text, p: int) -> Parsed<Seq<Stmt>>
    decreases s.len() - p, 3int,
{
    match stmt_at(s, p) {
        Ok((st, e)) => if ahead(s, p, e) {
            Ok(stmts_from(s, e, seq![st]))
        } else {
            Err(stuck(Rule::Block, p))
        },
        Err(t) => Err(inside(t, Rule::Block, p)),
    }
}

/// A statement: `return`, an assignment, a `local` binding, an `if` or an expression,
/// tried in this order. Where none matches, the trail is that of the expression.
pub open spec fn stmt_at(s: Text, p: int) -> Parsed<Stmt>
    decreases s.len() - p, 2int,
{
    if return_at(s, p) is Ok {
        return_at(s, p)
    } else if assign_at(s, p) is Ok {
        assign_at(s, p)
    } else if local_at(s, p) is Ok {
        match local_at(s, p) {
            Ok((binding, e)) => Ok((Stmt::Assign(Target::Dotted(seq![binding.0]), binding.1), e)),
            Err(t) => Err(t),
        }
    } else if if_at(s, p) is Ok {
        if_at(s, p)
    } else {
        match expr_at(s, p) {
            Ok((x, e)) => Ok((Stmt::Expr(x), e)),
            Err(t) => Err(inside(t, Rule::Stmt, p)),
        }
    }
}

/// `return` and an expression.
pub open spec fn return_at(s: Text, p: int) -> Parsed<Stmt>
    decreases s.len() - p, 0int,
{
    let p1 = skip(s, p + "return"@.len());
    if has_text(s, p, "return"@) && ahead(s, p, p1) {
        match expr_at(s, p1) {
            Ok((x, e)) => Ok((Stmt::Return(x), e)),
            Err(t) => Err(inside(t, Rule::Return, p1)),
        }
    } else {
        Err(stuck(Rule::Return, p))
    }
}

/// After a target that ends at `p`: the indices in brackets that follow it, each making
/// a target of the one before.
pub open spec fn subscripts_from(s: Text, p: int, target: Target) -> (Target, int)
    decreases s.len() - p, 0int,
{
    let p1 = skip(s, p + 1);
    if has_char(s, p, '[') && ahead(s, p, p1) {
        match expr_at(s, p1) {
            Ok((index, e)) => {
                let p2 = skip(s, e + 1);
                if has_char(s, e, ']') && ahead(s, p, p2) {
                    subscripts_from(s, p2, Target::Subscript(Box::new(target), index))
                } else {
                    (target, p)
                }
            },
            Err(_) => (target, p),
        }
    } else {
        (target, p)
    }
}

/// An assignment target: a dotted path, and the indices in brackets that follow it.
pub open spec fn target_at(s: Text, p: int) -> Parsed<Target>
    decreases s.len() - p, 0int,
{
    match path_at(s, p) {
        Ok((names, p1)) => if ahead(s, p, p1) {
            Ok(subscripts_from(s, p1, Target::Dotted(names)))
        } else {
            Err(stuck(Rule::LValue, p))
        },
        Err(t) => Err(inside(t, Rule::LValue, p)),
    }
}

/// An assignment: a target, `=` and an expression.
pub open spec fn assign_at(s: Text, p: int) -> Parsed<Stmt>
    decreases s.len() - p, 1int,
{
    match target_at(s, p) {
        Ok((target, p1)) => {
            let p2 = skip(s, p1 + 1);
            if has_char(s, p1, '=') && ahead(s, p, p2) {
                match expr_at(s, p2) {
                    Ok((x, e)) => Ok((Stmt::Assign(target, x), e)),
                    Err(t) => Err(inside(t, Rule::Assign, p2)),
                }
            } else {
                Err(stuck(Rule::Assign, p1))
            }
        },
        Err(t) => Err(inside(t, Rule::Assign, p)),
    }
}

/// A binding: `local`, an identifier, `=` and an expression.
pub open spec fn local_at(s: Text, p: int) -> Parsed<(Text, Expr)>
    decreases s.len() - p, 0int,
{
    if has_text(s, p, "local"@) {
        let p0 = skip(s, p + "local"@.len());
        match identifier_at(s, p0) {
            Ok((name, e)) => {
                let p1 = skip(s, e);
                let p2 = skip(s, p1 + 1);
                if has_char(s, p1, '=') && ahead(s, p, p2) {
                    match expr_at(s, p2) {
                        Ok((x, e2)) => Ok(((name, x), e2)),
                        Err(t) => Err(inside(t, Rule::Local, p2)),
                    }
                } else {
                    Err(stuck(Rule::Local, p1))
                }
            },
            Err(t) => Err(inside(t, Rule::Local, p0)),
        }
    } else {
        Err(stuck(Rule::Local, p))
    }
}

/// After the statements of a `then`, which end at `p`: the statements of the `else`, if
/// there is one with statements, or none.
pub open spec fn else_at(s: Text, p: int) -> (Seq<Stmt>, int)
    decreases s.len() - p, 4int,
{
    let p1 = skip(s, p + "else"@.len());
    if has_text(s, p, "else"@) && ahead(s, p, p1) {
        match block_at(s, p1) {
            Ok((stmts, e)) => (stmts, e),
            Err(_) => (Seq::empty(), p),
        }
    } else {
        (Seq::empty(), p)
    }
}

/// A conditional: `if`, an expression, `then`, one or more statements, with or without
/// `else` and one or more statements, and `end`.
pub open spec fn if_at(s: Text, p: int) -> Parsed<Stmt>
    decreases s.len() - p, 0int,
{
    let p1 = skip(s, p + "if"@.len());
    if has_text(s, p, "if"@) && ahead(s, p, p1) {
        match expr_at(s, p1) {
            Ok((cond, p2)) => {
                let p3 = skip(s, p2 + "then"@.len());
                if has_text(s, p2, "then"@) && ahead(s, p, p3) {
                    match block_at(s, p3) {
                        Ok((then, p4)) => if ahead(s, p, p4) {
                            let other = else_at(s, p4);
                            if has_text(s, other.1, "end"@) {
                                Ok(
                                    (
                                        Stmt::IfThen(cond, then, other.0),
                                        skip(s, other.1 + "end"@.len()),
                                    ),
                                )
                            } else {
                                Err(stuck(Rule::If, other.1))
                            }
                        } else {
                            Err(stuck(Rule::If, p3))
                        },
                        Err(t) => Err(inside(t, Rule::If, p3)),
                    }
                } else {
                    Err(stuck(Rule::If, p2))
                }
            },
            Err(t) => Err(inside(t, Rule::If, p1)),
        }
    } else {
        Err(stuck(Rule::If, p))
    }
}

/// A registration call: `data:extend(`, a value and `)`.
pub open spec fn data_extend_at(s: Text, p: int) -> Parsed<Value> {
    if has_text(s, p, "data:extend("@) {
        let p0 = skip(s, p + "data:extend("@.len());
        match object_at(s, p0) {
            Ok((v, e)) => if has_char(s, e, ')') {
                Ok((v, skip(s, e + 1)))
            } else {
                Err(stuck(Rule::DataExtend, e))
            },
            Err(t) => Err(inside(t, Rule::DataExtend, p0)),
        }
    } else {
        Err(stuck(Rule::DataExtend, p))
    }
}

/// A top-level form: a registration call, a `local` binding, a function with a name or
/// any statement, tried in this order. Where none matches, the trail is that of the
/// statement.
#[verifier::opaque]
pub open spec fn toplevel_at(s: Text, p: int) -> Parsed<Form> {
    match data_extend_at(s, p) {
        Ok((v, e)) => Ok((Form::Extend(v), e)),
        Err(_) => match local_at(s, p) {
            Ok((binding, e)) => Ok((Form::Local(binding.0, binding.1), e)),
            Err(_) => match function_at(s, p, true) {
                Ok((f, e)) => Ok((Form::Function(f.0->Some_0, f.1), e)),
                Err(_) => match stmt_at(s, p) {
                    Ok((_, e)) => Ok((Form::Other, e)),
                    Err(t) => Err(inside(t, Rule::TopLevel, p)),
                },
            },
        },
    }
}

/// The pass over `s` from `p` on, with `gathered` in hand: form after form until the
/// text ends or holds no form. What is gathered then, and the trail of the form that
/// did not match, if the text did not end. The text must hold one form at least.
pub open spec fn forms_from(s: Text, p: int, gathered: Gathered) -> (Gathered, Option<Trail>)
    decreases s.len() - p,
{
    match toplevel_at(s, p) {
        Ok((form, e)) => if !ahead(s, p, e) {
            (gathered, Some(stuck(Rule::TopLevel, p)))
        } else if e == s.len() {
            (gathered.with_form(form), None)
        } else {
            forms_from(s, e, gathered.with_form(form))
        },
        Err(t) => (gathered, Some(t)),
    }
}

/// The first position from `p` on from which `s` holds `t`.
pub open spec fn find_text(s: Text, p: int, t: Text) -> Option<int>
    decreases s.len() - p,
{
    if has_text(s, p, t) {
        Some(p)
    } else if p < 0 || p >= s.len() {
        None
    } else {
        find_text(s, p + 1, t)
    }
}

/// The text up to the first `end`, as a string value. Nothing of the `end` is consumed.
pub open spec fn unhandled_body_at(s: Text, p: int) -> Parsed<Expr> {
    match find_text(s, p, "end"@) {
        Some(e) => Ok((Expr::Literal(Value::Str(s.subrange(p, e))), e)),
        None => Err(stuck(Rule::UnhandledBody, p)),
    }
}

} // verus!
