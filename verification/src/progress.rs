use crate::grammar::{
    ahead, args_at, args_from, array_at, assign_at, binop_at, block_at, bool_at, data_extend_at,
    else_at, expr_at, field_at, fields_from, funcall_at, function_at, function_tail_at,
    identifier_at, if_at,
    items_from, local_at, name_position_at, num_at, object_at, operator_at, params_at,
    params_from, paren_at, past_comma, path_at, path_from, return_at, stmt_at, stmts_from,
    str_at, subscripts_from, table_at, target_at, toplevel_at, unop_at, Parsed,
};
use crate::lexer::{
    has_char, has_text, lemma_run_end, lemma_skip_bounds, lemma_skip_idempotent, run_end, skip,
    CharClass,
};
use crate::model::{Expr, Stmt, Target, Text, Value};
use vstd::prelude::*;

verus! {

/// A rule that matched ends after the place where it began, within the text.
pub open spec fn ends_ahead<T>(r: Parsed<T>, s: Text, p: int) -> bool {
    match r {
        Ok((_, e)) => ahead(s, p, e),
        Err(_) => true,
    }
}

/// A rule that matched ends after the place where it began, within the text, and has
/// the insignificant text after it behind it.
pub open spec fn ends_well<T>(r: Parsed<T>, s: Text, p: int) -> bool {
    match r {
        Ok((_, e)) => ahead(s, p, e) && skip(s, e) == e,
        Err(_) => true,
    }
}

/// A list ends at or after the place where it began, within the text.
pub open spec fn ends_within<T>(r: (T, int), s: Text, p: int) -> bool {
    p <= r.1 <= s.len()
}

/// A list that began where no insignificant text starts ends at such a place.
pub open spec fn stays_settled<T>(r: (T, int), s: Text, p: int) -> bool {
    skip(s, p) == p ==> skip(s, r.1) == r.1
}

/// Insignificant text ends within the text, where none starts.
pub proof fn lemma_skip_settles(s: Text, p: int)
    requires
        0 <= p <= s.len(),
    ensures
        p <= skip(s, p) <= s.len(),
        skip(s, skip(s, p)) == skip(s, p),
{
    lemma_skip_bounds(s, p);
    lemma_skip_idempotent(s, p);
}

/// A `,` with what follows it ends within the text, where no insignificant text starts
/// if none started at the `,`.
pub proof fn lemma_blanks_end_within(s: Text, p: int)
    requires
        0 <= p <= s.len(),
    ensures
        p <= past_comma(s, p) <= s.len(),
        has_char(s, p, ',') ==> p < past_comma(s, p),
        skip(s, p) == p ==> skip(s, past_comma(s, p)) == past_comma(s, p),
{
    if has_char(s, p, ',') {
        lemma_skip_settles(s, p + 1);
    }
}

/// An identifier that matches ends after the place where it began, within the text.
pub proof fn lemma_identifier_advances(s: Text, p: int)
    requires
        0 <= p <= s.len(),
    ensures
        ends_ahead(identifier_at(s, p), s, p),
{
    if p < s.len() {
        lemma_run_end(s, p + 1, CharClass::Word);
    }
}

/// The identifiers that follow the first of a path end within the text.
pub proof fn lemma_path_rest_ends_within(s: Text, p: int, names: Seq<Text>)
    requires
        0 <= p <= s.len(),
    ensures
        ends_within(path_from(s, p, names), s, p),
    decreases s.len() - p,
{
    if has_char(s, p, '.') {
        lemma_identifier_advances(s, p + 1);
        match identifier_at(s, p + 1) {
            Ok((name, e)) => {
                if ahead(s, p, e) {
                    lemma_path_rest_ends_within(s, e, names.push(name));
                }
            },
            Err(_) => {},
        }
    }
}

/// A dotted path that matches ends ahead, where no insignificant text starts.
pub proof fn lemma_path_advances(s: Text, p: int)
    requires
        0 <= p <= s.len(),
    ensures
        ends_well(path_at(s, p), s, p),
{
    lemma_identifier_advances(s, p);
    match identifier_at(s, p) {
        Ok((name, e)) => {
            lemma_path_rest_ends_within(s, e, seq![name]);
            lemma_skip_settles(s, path_from(s, e, seq![name]).1);
        },
        Err(_) => {},
    }
}

/// A number, a boolean and a string that match end ahead, where no insignificant text
/// starts.
pub proof fn lemma_plain_values_advance(s: Text, p: int)
    requires
        0 <= p <= s.len(),
    ensures
        ends_well(num_at(s, p), s, p),
        ends_well(bool_at(s, p), s, p),
        ends_well(str_at(s, p), s, p),
{
    reveal_strlit("true");
    reveal_strlit("false");
    lemma_run_end(s, p, CharClass::Numeric);
    lemma_skip_settles(s, run_end(s, p, CharClass::Numeric));
    if has_text(s, p, "true"@) {
        lemma_skip_settles(s, p + 4);
    }
    if has_text(s, p, "false"@) {
        lemma_skip_settles(s, p + 5);
    }
    if has_char(s, p, '"') {
        lemma_run_end(s, p + 1, CharClass::Quoted);
        let e = run_end(s, p + 1, CharClass::Quoted);
        if has_char(s, e, '"') {
            lemma_skip_settles(s, e + 1);
        }
    }
}

/// Every value that the grammar yields ends after the place where it began, within the
/// text.
pub proof fn lemma_values_advance(s: Text, p: int)
    requires
        0 <= p <= s.len(),
    ensures
        ends_well(object_at(s, p), s, p),
    decreases s.len() - p, 3int,
{
    lemma_plain_values_advance(s, p);
    lemma_tables_advance(s, p);
    lemma_arrays_advance(s, p);
    lemma_path_advances(s, p);
}

/// A field that matches ends ahead, where no insignificant text starts.
pub proof fn lemma_fields_advance(s: Text, p: int)
    requires
        0 <= p <= s.len(),
    ensures
        ends_well(field_at(s, p), s, p),
    decreases s.len() - p, 2int,
{
    lemma_identifier_advances(s, p);
    match identifier_at(s, p) {
        Ok((_, e)) => {
            let p1 = skip(s, e);
            let p2 = skip(s, p1 + 1);
            if has_char(s, p1, '=') && ahead(s, p, p2) {
                lemma_values_advance(s, p2);
            }
        },
        Err(_) => {},
    }
}

/// The fields that follow the first of a table end within the text.
pub proof fn lemma_more_fields_end_within(s: Text, p: int, entries: Map<Text, Value>)
    requires
        0 <= p <= s.len(),
    ensures
        ends_within(fields_from(s, p, entries), s, p),
        stays_settled(fields_from(s, p, entries), s, p),
    decreases s.len() - p, 2int,
{
    let p1 = past_comma(s, p);
    if has_char(s, p, ',') && ahead(s, p, p1) {
        lemma_fields_advance(s, p1);
        match field_at(s, p1) {
            Ok((f, e)) => {
                if ahead(s, p1, e) {
                    lemma_more_fields_end_within(s, e, entries.insert(f.0, f.1));
                }
            },
            Err(_) => {},
        }
    }
}

/// A table that matches ends ahead, where no insignificant text starts.
pub proof fn lemma_tables_advance(s: Text, p: int)
    requires
        0 <= p <= s.len(),
    ensures
        ends_well(table_at(s, p), s, p),
    decreases s.len() - p, 2int,
{
    let p1 = skip(s, p + 1);
    if has_char(s, p, '{') && ahead(s, p, p1) {
        let body = match field_at(s, p1) {
            Ok((f, e)) => if ahead(s, p1, e) {
                fields_from(s, e, Map::empty().insert(f.0, f.1))
            } else {
                (Map::empty(), p1)
            },
            Err(_) => (Map::empty(), p1),
        };
        match field_at(s, p1) {
            Ok((f, e)) => {
                if ahead(s, p1, e) {
                    lemma_more_fields_end_within(s, e, Map::empty().insert(f.0, f.1));
                }
            },
            Err(_) => {},
        }
        lemma_blanks_end_within(s, body.1);
        let q = past_comma(s, body.1);
        if has_char(s, q, '}') {
            lemma_skip_settles(s, q + 1);
        }
    }
}

/// The values that follow the first of an array end within the text.
pub proof fn lemma_more_items_end_within(s: Text, p: int, items: Seq<Value>)
    requires
        0 <= p <= s.len(),
    ensures
        ends_within(items_from(s, p, items), s, p),
        stays_settled(items_from(s, p, items), s, p),
    decreases s.len() - p, 2int,
{
    let p1 = past_comma(s, p);
    if has_char(s, p, ',') && ahead(s, p, p1) {
        lemma_values_advance(s, p1);
        match object_at(s, p1) {
            Ok((v, e)) => {
                if ahead(s, p1, e) {
                    lemma_more_items_end_within(s, e, items.push(v));
                }
            },
            Err(_) => {},
        }
    }
}

/// An array that matches ends ahead, where no insignificant text starts.
pub proof fn lemma_arrays_advance(s: Text, p: int)
    requires
        0 <= p <= s.len(),
    ensures
        ends_well(array_at(s, p), s, p),
    decreases s.len() - p, 2int,
{
    let p1 = skip(s, p + 1);
    if has_char(s, p, '{') && ahead(s, p, p1) {
        match object_at(s, p1) {
            Ok((v, e)) => {
                if ahead(s, p1, e) {
                    lemma_more_items_end_within(s, e, seq![v]);
                    let body = items_from(s, e, seq![v]);
                    lemma_blanks_end_within(s, body.1);
                    let q = past_comma(s, body.1);
                    if has_char(s, q, '}') {
                        lemma_skip_settles(s, q + 1);
                    }
                }
            },
            Err(_) => {},
        }
    }
}

/// The parameters of a function end within the text.
pub proof fn lemma_params_end_within(s: Text, p: int)
    requires
        0 <= p <= s.len(),
    ensures
        ends_within(params_at(s, p), s, p),
{
    lemma_identifier_advances(s, p);
    match identifier_at(s, p) {
        Ok((name, e)) => {
            lemma_more_params_end_within(s, e, seq![name]);
        },
        Err(_) => {},
    }
}

/// The parameters that follow the first end within the text.
pub proof fn lemma_more_params_end_within(s: Text, p: int, names: Seq<Text>)
    requires
        0 <= p <= s.len(),
    ensures
        ends_within(params_from(s, p, names), s, p),
    decreases s.len() - p,
{
    let p1 = past_comma(s, p);
    if has_char(s, p, ',') && ahead(s, p, p1) {
        match identifier_at(s, p1) {
            Ok((name, e)) => {
                if ahead(s, p1, e) {
                    lemma_more_params_end_within(s, e, names.push(name));
                }
            },
            Err(_) => {},
        }
    }
}

/// Every expression that the grammar yields ends after the place where it began, within
/// the text.
pub proof fn lemma_exprs_advance(s: Text, p: int)
    requires
        0 <= p <= s.len(),
    ensures
        ends_well(expr_at(s, p), s, p),
    decreases s.len() - p, 3int,
{
    lemma_functions_advance(s, p, false);
    lemma_funcalls_advance(s, p);
    lemma_binops_advance(s, p);
    lemma_unops_advance(s, p);
    lemma_parens_advance(s, p);
    lemma_values_advance(s, p);
}

/// The arguments that follow the first of a call end within the text.
pub proof fn lemma_more_args_end_within(s: Text, p: int, args: Seq<Expr>)
    requires
        0 <= p <= s.len(),
    ensures
        ends_within(args_from(s, p, args), s, p),
        stays_settled(args_from(s, p, args), s, p),
    decreases s.len() - p, 2int,
{
    let p1 = past_comma(s, p);
    if has_char(s, p, ',') && ahead(s, p, p1) {
        lemma_exprs_advance(s, p1);
        match expr_at(s, p1) {
            Ok((x, e)) => {
                if ahead(s, p1, e) {
                    lemma_more_args_end_within(s, e, args.push(x));
                }
            },
            Err(_) => {},
        }
    }
}

/// The arguments of a call end within the text.
pub proof fn lemma_args_end_within(s: Text, p: int)
    requires
        0 <= p <= s.len(),
    ensures
        ends_within(args_at(s, p), s, p),
        stays_settled(args_at(s, p), s, p),
    decreases s.len() - p, 4int,
{
    lemma_exprs_advance(s, p);
    match expr_at(s, p) {
        Ok((x, e)) => {
            if ahead(s, p, e) {
                lemma_more_args_end_within(s, e, seq![x]);
            }
        },
        Err(_) => {},
    }
}

/// A call that matches ends ahead, where no insignificant text starts.
pub proof fn lemma_funcalls_advance(s: Text, p: int)
    requires
        0 <= p <= s.len(),
    ensures
        ends_well(funcall_at(s, p), s, p),
    decreases s.len() - p, 2int,
{
    lemma_path_advances(s, p);
    match path_at(s, p) {
        Ok((_, p1)) => {
            let p2 = skip(s, p1 + 1);
            if has_char(s, p1, '(') && ahead(s, p, p2) {
                lemma_args_end_within(s, p2);
                let args = args_at(s, p2);
                if has_char(s, args.1, ')') {
                    lemma_skip_settles(s, args.1 + 1);
                }
            }
        },
        Err(_) => {},
    }
}

/// An infix operation that matches ends ahead, where no insignificant text starts.
pub proof fn lemma_binops_advance(s: Text, p: int)
    requires
        0 <= p <= s.len(),
    ensures
        ends_well(binop_at(s, p), s, p),
    decreases s.len() - p, 2int,
{
    match object_at(s, p) {
        Ok((_, p1)) => match operator_at(s, p1) {
            Some((_, p2)) => {
                let p3 = skip(s, p2);
                if ahead(s, p, p3) {
                    lemma_exprs_advance(s, p3);
                }
            },
            None => {},
        },
        Err(_) => {},
    }
}

/// A prefix operation that matches ends ahead, where no insignificant text starts.
pub proof fn lemma_unops_advance(s: Text, p: int)
    requires
        0 <= p <= s.len(),
    ensures
        ends_well(unop_at(s, p), s, p),
    decreases s.len() - p, 2int,
{
    let p1 = skip(s, p + 1);
    if has_char(s, p, '#') && ahead(s, p, p1) {
        lemma_exprs_advance(s, p1);
    }
}

/// An expression in parentheses that matches ends ahead, where no insignificant text
/// starts.
pub proof fn lemma_parens_advance(s: Text, p: int)
    requires
        0 <= p <= s.len(),
    ensures
        ends_well(paren_at(s, p), s, p),
    decreases s.len() - p, 2int,
{
    let p1 = skip(s, p + 1);
    if has_char(s, p, '(') && ahead(s, p, p1) {
        lemma_exprs_advance(s, p1);
        match expr_at(s, p1) {
            Ok((_, e)) => {
                if has_char(s, e, ')') {
                    lemma_skip_settles(s, e + 1);
                }
            },
            Err(_) => {},
        }
    }
}

/// A function definition that matches ends ahead, where no insignificant text starts.
pub proof fn lemma_functions_advance(s: Text, p: int, named: bool)
    requires
        0 <= p <= s.len(),
    ensures
        ends_well(function_at(s, p, named), s, p),
    decreases s.len() - p, 2int,
{
    if has_text(s, p, "function"@) {
        let p0 = skip(s, p + "function"@.len());
        match name_position_at(s, p0, named) {
            Ok((_, p1)) => {
                if ahead(s, p, p1) {
                    lemma_function_tails_advance(s, p1);
                }
            },
            Err(_) => {},
        }
    }
}

/// What follows the name of a function, where it matches, ends ahead, where no
/// insignificant text starts.
pub proof fn lemma_function_tails_advance(s: Text, p: int)
    requires
        0 <= p <= s.len(),
    ensures
        ends_well(function_tail_at(s, p), s, p),
    decreases s.len() - p, 2int,
{
    reveal_strlit("end");
    let params = params_at(s, skip(s, p + 1));
    let p2 = skip(s, params.1 + 1);
    if has_char(s, p, '(') && has_char(s, params.1, ')') && ahead(s, p, p2) {
        lemma_blocks_advance(s, p2);
        match block_at(s, p2) {
            Ok((_, p3)) => {
                if has_text(s, p3, "end"@) {
                    lemma_skip_settles(s, p3 + 3);
                }
            },
            Err(_) => {},
        }
    }
}

/// The statements that follow the first of a block end within the text.
pub proof fn lemma_more_stmts_end_within(s: Text, p: int, stmts: Seq<Stmt>)
    requires
        0 <= p <= s.len(),
    ensures
        ends_within(stmts_from(s, p, stmts), s, p),
        stays_settled(stmts_from(s, p, stmts), s, p),
    decreases s.len() - p, 5int,
{
    lemma_stmts_advance(s, p);
    match stmt_at(s, p) {
        Ok((st, e)) => {
            if ahead(s, p, e) {
                lemma_more_stmts_end_within(s, e, stmts.push(st));
            }
        },
        Err(_) => {},
    }
}

/// A block that matches ends ahead, where no insignificant text starts.
pub proof fn lemma_blocks_advance(s: Text, p: int)
    requires
        0 <= p <= s.len(),
    ensures
        ends_well(block_at(s, p), s, p),
    decreases s.len() - p, 5int,
{
    lemma_stmts_advance(s, p);
    match stmt_at(s, p) {
        Ok((st, e)) => {
            if ahead(s, p, e) {
                lemma_more_stmts_end_within(s, e, seq![st]);
            }
        },
        Err(_) => {},
    }
}

/// Every statement that the grammar yields ends after the place where it began, within
/// the text.
pub proof fn lemma_stmts_advance(s: Text, p: int)
    requires
        0 <= p <= s.len(),
    ensures
        ends_well(stmt_at(s, p), s, p),
    decreases s.len() - p, 4int,
{
    lemma_returns_advance(s, p);
    lemma_assigns_advance(s, p);
    lemma_locals_advance(s, p);
    lemma_ifs_advance(s, p);
    lemma_exprs_advance(s, p);
}

/// A `return` that matches ends ahead, where no insignificant text starts.
pub proof fn lemma_returns_advance(s: Text, p: int)
    requires
        0 <= p <= s.len(),
    ensures
        ends_well(return_at(s, p), s, p),
    decreases s.len() - p, 2int,
{
    let p1 = skip(s, p + "return"@.len());
    if has_text(s, p, "return"@) && ahead(s, p, p1) {
        lemma_exprs_advance(s, p1);
    }
}

/// The indices that follow a target end within the text.
pub proof fn lemma_subscripts_end_within(s: Text, p: int, target: Target)
    requires
        0 <= p <= s.len(),
    ensures
        ends_within(subscripts_from(s, p, target), s, p),
        stays_settled(subscripts_from(s, p, target), s, p),
    decreases s.len() - p, 2int,
{
    let p1 = skip(s, p + 1);
    if has_char(s, p, '[') && ahead(s, p, p1) {
        lemma_exprs_advance(s, p1);
        match expr_at(s, p1) {
            Ok((index, e)) => {
                let p2 = skip(s, e + 1);
                if has_char(s, e, ']') && ahead(s, p, p2) {
                    lemma_skip_settles(s, e + 1);
                    lemma_subscripts_end_within(
                        s,
                        p2,
                        Target::Subscript(Box::new(target), index),
                    );
                }
            },
            Err(_) => {},
        }
    }
}

/// An assignment target that matches ends ahead, where no insignificant text starts.
pub proof fn lemma_targets_advance(s: Text, p: int)
    requires
        0 <= p <= s.len(),
    ensures
        ends_well(target_at(s, p), s, p),
    decreases s.len() - p, 2int,
{
    lemma_path_advances(s, p);
    match path_at(s, p) {
        Ok((names, p1)) => {
            if ahead(s, p, p1) {
                lemma_subscripts_end_within(s, p1, Target::Dotted(names));
            }
        },
        Err(_) => {},
    }
}

/// An assignment that matches ends ahead, where no insignificant text starts.
pub proof fn lemma_assigns_advance(s: Text, p: int)
    requires
        0 <= p <= s.len(),
    ensures
        ends_well(assign_at(s, p), s, p),
    decreases s.len() - p, 3int,
{
    match target_at(s, p) {
        Ok((_, p1)) => {
            let p2 = skip(s, p1 + 1);
            if has_char(s, p1, '=') && ahead(s, p, p2) {
                lemma_exprs_advance(s, p2);
            }
        },
        Err(_) => {},
    }
}

/// A `local` binding that matches ends ahead, where no insignificant text starts.
pub proof fn lemma_locals_advance(s: Text, p: int)
    requires
        0 <= p <= s.len(),
    ensures
        ends_well(local_at(s, p), s, p),
    decreases s.len() - p, 2int,
{
    if has_text(s, p, "local"@) {
        let p0 = skip(s, p + "local"@.len());
        match identifier_at(s, p0) {
            Ok((_, e)) => {
                let p1 = skip(s, e);
                let p2 = skip(s, p1 + 1);
                if has_char(s, p1, '=') && ahead(s, p, p2) {
                    lemma_exprs_advance(s, p2);
                }
            },
            Err(_) => {},
        }
    }
}

/// The `else` of a conditional ends within the text.
pub proof fn lemma_else_ends_within(s: Text, p: int)
    requires
        0 <= p <= s.len(),
    ensures
        ends_within(else_at(s, p), s, p),
        stays_settled(else_at(s, p), s, p),
    decreases s.len() - p, 6int,
{
    let p1 = skip(s, p + "else"@.len());
    if has_text(s, p, "else"@) && ahead(s, p, p1) {
        lemma_blocks_advance(s, p1);
    }
}

/// A conditional that matches ends ahead, where no insignificant text starts.
pub proof fn lemma_ifs_advance(s: Text, p: int)
    requires
        0 <= p <= s.len(),
    ensures
        ends_well(if_at(s, p), s, p),
    decreases s.len() - p, 2int,
{
    reveal_strlit("end");
    let p1 = skip(s, p + "if"@.len());
    if has_text(s, p, "if"@) && ahead(s, p, p1) {
        match expr_at(s, p1) {
            Ok((_, p2)) => {
                let p3 = skip(s, p2 + "then"@.len());
                if has_text(s, p2, "then"@) && ahead(s, p, p3) {
                    match block_at(s, p3) {
                        Ok((_, p4)) => {
                            if ahead(s, p, p4) {
                                lemma_else_ends_within(s, p4);
                                let other = else_at(s, p4);
                                if has_text(s, other.1, "end"@) {
                                    lemma_skip_settles(s, other.1 + 3);
                                }
                            }
                        },
                        Err(_) => {},
                    }
                }
            },
            Err(_) => {},
        }
    }
}

/// Every top-level form that the grammar yields ends after the place where it began,
/// within the text: a pass never turns a form down for standing still.
pub proof fn lemma_forms_advance(s: Text, p: int)
    requires
        0 <= p <= s.len(),
    ensures
        ends_well(toplevel_at(s, p), s, p),
{
    reveal(toplevel_at);
    lemma_functions_advance(s, p, true);
    lemma_locals_advance(s, p);
    lemma_stmts_advance(s, p);
    if has_text(s, p, "data:extend("@) {
        let p0 = skip(s, p + "data:extend("@.len());
        reveal_strlit("data:extend(");
        lemma_skip_settles(s, p + 12);
        lemma_values_advance(s, p0);
        match object_at(s, p0) {
            Ok((_, e)) => {
                if has_char(s, e, ')') {
                    lemma_skip_settles(s, e + 1);
                }
            },
            Err(_) => {},
        }
    }
    assert(ends_well(data_extend_at(s, p), s, p));
}

} // verus!
