use lua_prototypes::dict::Dict;
use lua_prototypes::lua_parser::{
    commaspace, parse_array, parse_bool, parse_data_extend, parse_expr, parse_field,
    parse_funcall, parse_function_with, parse_identifier, parse_local, parse_lvalue, parse_map,
    parse_named_function,
    parse_anon_function, parse_function, parse_namespaced, parse_num, parse_object,
    parse_return, parse_stmt, parse_str, parse_unhandled_body, whitespace, LuaContext,
    ParseError,
};
use lua_prototypes::grammar::{Frame, Rule};
use lua_prototypes::tree::{
    BinaryOp, LuaExpr, LuaFunction, LuaLValue, LuaObject, LuaStmt, UnaryOp,
};

fn table(entries: Vec<(&str, LuaObject)>) -> LuaObject {
    LuaObject::Table(Dict {
        entries: entries.into_iter().map(|(k, v)| (k.to_string(), v)).collect(),
    })
}

fn var(path: &[&str]) -> LuaExpr {
    LuaExpr::Var(path.iter().map(|s| s.to_string()).collect())
}

fn name(path: &[&str]) -> LuaObject {
    LuaObject::Expr(Box::new(var(path)))
}

fn lit(v: LuaObject) -> LuaExpr {
    LuaExpr::Literal(v)
}

fn trail(frames: &[(Rule, usize)]) -> ParseError {
    ParseError {
        trail: frames.iter().map(|&(rule, at)| Frame { rule, at }).collect(),
    }
}

/// The trail of a text that holds at `at` no top-level form.
fn no_form(at: usize) -> ParseError {
    trail(&[
        (Rule::Identifier, at),
        (Rule::Namespaced, at),
        (Rule::Object, at),
        (Rule::Expr, at),
        (Rule::Stmt, at),
        (Rule::TopLevel, at),
    ])
}

/// The rule that was asked for is the outermost of the trail.
fn fails<T: std::fmt::Debug + PartialEq>(r: Result<T, ParseError>, rule: Rule) {
    match r {
        Ok(v) => panic!("{:?}", v),
        Err(e) => assert_eq!(e.trail.last().map(|f| f.rule), Some(rule)),
    }
}

#[test]
pub fn parse_tests() {
    assert_eq!(
        nom::bytes::complete::is_not::<_, _, ()>("\"\\")("recipe"),
        Ok(("", "recipe"))
    );
    assert_eq!(
        parse_str("\"recipe\""),
        Ok(("", LuaObject::Str("recipe".to_string())))
    );
}

#[test]
fn whitespace_runs_over_blanks_and_comments() {
    assert_eq!(whitespace("  \t\r\n x"), Ok(("x", ())));
    assert_eq!(whitespace("x  "), Ok(("x  ", ())));
    assert_eq!(whitespace(""), Ok(("", ())));
    assert_eq!(whitespace("-- a comment\n  -- another\n\tx -- kept"), Ok(("x -- kept", ())));
    assert_eq!(whitespace("--\nx"), Ok(("x", ())));
    assert_eq!(whitespace("-- to the end"), Ok(("", ())));
    assert_eq!(whitespace("- x"), Ok(("- x", ())));
}

#[test]
fn whitespace_twice_is_whitespace_once() {
    let (rest, _) = whitespace("  -- one\n -- two\n  local x = 1").unwrap();
    assert_eq!(rest, "local x = 1");
    assert_eq!(whitespace(rest), Ok((rest, ())));
}

#[test]
fn commaspace_needs_a_comma() {
    assert_eq!(commaspace(",  -- c\n x"), Ok(("x", ())));
    assert_eq!(commaspace(","), Ok(("", ())));
    fails(commaspace(" ,"), Rule::Comma);
    fails(commaspace(""), Rule::Comma);
}

#[test]
fn booleans_end_after_the_blanks_that_follow() {
    assert_eq!(parse_bool("true"), Ok(("", LuaObject::Bool(true))));
    assert_eq!(parse_bool("false"), Ok(("", LuaObject::Bool(false))));
    assert_eq!(parse_bool("true  , x"), Ok((", x", LuaObject::Bool(true))));
    assert_eq!(parse_object("false -- no\n}"), Ok(("}", LuaObject::Bool(false))));
    assert_eq!(parse_object("true"), Ok(("", LuaObject::Bool(true))));
    fails(parse_bool("tru"), Rule::Bool);
    fails(parse_bool(" true"), Rule::Bool);
}

#[test]
fn strings_are_taken_as_they_stand() {
    assert_eq!(parse_str("\"\""), Ok(("", LuaObject::Str(String::new()))));
    assert_eq!(
        parse_object("\"iron-plate\"  ,"),
        Ok((",", LuaObject::Str("iron-plate".to_string())))
    );
    assert_eq!(
        parse_str("\"a b\n\u{e9}\" x"),
        Ok(("x", LuaObject::Str("a b\n\u{e9}".to_string())))
    );
    fails(parse_str("\"open"), Rule::Str);
    fails(parse_str("\"back\\slash\""), Rule::Str);
    fails(parse_str("recipe"), Rule::Str);
}

#[test]
fn numbers_are_integers_where_they_can_be() {
    assert_eq!(parse_num("42"), Ok(("", LuaObject::Int(42))));
    assert_eq!(parse_num("-7 ,"), Ok((",", LuaObject::Int(-7))));
    assert_eq!(parse_num("007"), Ok(("", LuaObject::Int(7))));
    assert_eq!(
        parse_num("9223372036854775807"),
        Ok(("", LuaObject::Int(i64::MAX)))
    );
    assert_eq!(
        parse_num("-9223372036854775808"),
        Ok(("", LuaObject::Int(i64::MIN)))
    );
    assert_eq!(
        parse_num("9223372036854775808"),
        Ok(("", LuaObject::Float("9223372036854775808".to_string())))
    );
    assert_eq!(parse_num("0.5"), Ok(("", LuaObject::Float("0.5".to_string()))));
    assert_eq!(parse_num("-.5 x"), Ok(("x", LuaObject::Float("-.5".to_string()))));
    assert_eq!(parse_num("3."), Ok(("", LuaObject::Float("3.".to_string()))));
}

#[test]
fn numbers_that_are_none_fail() {
    fails(parse_num("1.2.3"), Rule::Num);
    fails(parse_num("."), Rule::Num);
    fails(parse_num("-"), Rule::Num);
    fails(parse_num("1-2"), Rule::Num);
    fails(parse_num("--1"), Rule::Num);
    fails(parse_num("x"), Rule::Num);
    fails(parse_num(""), Rule::Num);
    fails(parse_object("1.2.3"), Rule::Object);
}

#[test]
fn float_texts_read_as_floats() {
    for text in ["0.5", "-.5", "3.", "9223372036854775808", "-12.25"] {
        match parse_num(text) {
            Ok((_, LuaObject::Float(t))) => {
                assert_eq!(t, text);
                assert!(t.parse::<f64>().is_ok());
            }
            other => panic!("{:?}", other),
        }
    }
}

#[test]
fn texts_that_are_no_numbers_read_as_none() {
    for text in ["1.2.3", ".", "-", "-.", "1-2", "--1", "1..2", "-1-", ".-1"] {
        fails(parse_num(text), Rule::Num);
        assert!(text.parse::<i64>().is_err());
        assert!(text.parse::<f64>().is_err());
    }
    for text in ["0", "-0", "12", "-12", "0012"] {
        match parse_num(text) {
            Ok((_, LuaObject::Int(i))) => assert_eq!(Ok(i), text.parse::<i64>()),
            other => panic!("{:?}", other),
        }
    }
}

#[test]
fn every_short_text_of_digits_dots_and_dashes_reads_as_std_reads_it() {
    let letters = ['0', '7', '9', '.', '-'];
    let mut texts = vec![String::new()];
    for _ in 0..6 {
        let mut longer = Vec::new();
        for t in &texts {
            for c in letters {
                let mut u = t.clone();
                u.push(c);
                longer.push(u);
            }
        }
        for text in &longer {
            let got = parse_num(text);
            match (text.parse::<i64>(), text.parse::<f64>()) {
                (Ok(i), _) => assert_eq!(got, Ok(("", LuaObject::Int(i))), "{}", text),
                (Err(_), Ok(_)) => {
                    assert_eq!(got, Ok(("", LuaObject::Float(text.clone()))), "{}", text)
                }
                (Err(_), Err(_)) => assert!(got.is_err(), "{}", text),
            }
        }
        texts = longer;
    }
}

#[test]
fn identifiers_leave_reserved_words_out() {
    assert_eq!(parse_identifier("abc_1 x"), Ok((" x", "abc_1".to_string())));
    assert_eq!(parse_identifier("_x.y"), Ok((".y", "_x".to_string())));
    assert_eq!(parse_identifier("ending"), Ok(("", "ending".to_string())));
    assert_eq!(parse_identifier("local"), Ok(("", "local".to_string())));
    for word in ["return", "true", "false", "if", "then", "else", "end"] {
        fails(parse_identifier(word), Rule::Identifier);
    }
    fails(parse_identifier("1a"), Rule::Identifier);
    fails(parse_identifier(""), Rule::Identifier);
}

#[test]
fn dotted_paths() {
    assert_eq!(
        parse_namespaced("a.b.c  = 1"),
        Ok(("= 1", vec!["a".to_string(), "b".to_string(), "c".to_string()]))
    );
    assert_eq!(parse_namespaced("a. b"), Ok((". b", vec!["a".to_string()])));
    assert_eq!(parse_namespaced("a.end"), Ok((".end", vec!["a".to_string()])));
    fails(parse_namespaced(".a"), Rule::Namespaced);
}

#[test]
fn array_of_three_integers() {
    assert_eq!(
        parse_object("{1, 2, 3}"),
        Ok((
            "",
            LuaObject::Array(vec![LuaObject::Int(1), LuaObject::Int(2), LuaObject::Int(3)])
        ))
    );
    assert_eq!(
        parse_array("{1, 2, 3}"),
        Ok((
            "",
            LuaObject::Array(vec![LuaObject::Int(1), LuaObject::Int(2), LuaObject::Int(3)])
        ))
    );
    fails(parse_map("{1, 2, 3}"), Rule::Table);
}

#[test]
fn table_of_two_fields() {
    let (rest, value) = parse_object("{name = \"foo\", amount = 2}").unwrap();
    assert_eq!(rest, "");
    match &value {
        LuaObject::Table(d) => {
            assert_eq!(d.len(), 2);
            assert_eq!(d.get("name"), Some(&LuaObject::Str("foo".to_string())));
            assert_eq!(d.get("amount"), Some(&LuaObject::Int(2)));
            assert_eq!(d.get("other"), None);
        }
        other => panic!("{:?}", other),
    }
    assert_eq!(
        value,
        table(vec![
            ("name", LuaObject::Str("foo".to_string())),
            ("amount", LuaObject::Int(2))
        ])
    );
    fails(parse_array("{name = \"foo\", amount = 2}"), Rule::Array);
}

#[test]
fn the_order_of_the_fields_plays_no_part() {
    let one = parse_map("{name = \"foo\", amount = 2}").unwrap();
    let other = parse_map("{amount = 2, name = \"foo\"}").unwrap();
    assert_eq!(one, other);
    assert_eq!(
        one.1,
        table(vec![
            ("amount", LuaObject::Int(2)),
            ("name", LuaObject::Str("foo".to_string()))
        ])
    );
    assert_eq!(
        parse_object("{{b = {y = 1, x = {2}}, a = 1}, {c = 1, d = 2}}"),
        parse_object("{{a = 1, b = {x = {2}, y = 1}}, {d = 2, c = 1}}")
    );
    assert_ne!(
        parse_object("{{a = 1, b = 2}, {c = 3}}"),
        parse_object("{{c = 3}, {a = 1, b = 2}}")
    );
    assert_ne!(one.1, table(vec![("name", LuaObject::Str("foo".to_string()))]));
    assert_ne!(table(vec![("name", LuaObject::Str("foo".to_string()))]), one.1);
    assert_ne!(
        one.1,
        table(vec![
            ("amount", LuaObject::Int(3)),
            ("name", LuaObject::Str("foo".to_string()))
        ])
    );
    assert_eq!(
        parse_map("{a = 1, b = 2, a = 3}").unwrap().1,
        parse_map("{b = 2, a = 3}").unwrap().1
    );
}

#[test]
fn what_a_pass_gathers_does_not_depend_on_the_order() {
    let mut one = LuaContext::new();
    assert_eq!(
        one.parse_all("local a = 1 local b = 2 function f() return 1 end function g() return 2 end"),
        Ok(("", ()))
    );
    let mut other = LuaContext::new();
    assert_eq!(
        other.parse_all("function g() return 2 end local b = 2 function f() return 1 end local a = 1"),
        Ok(("", ()))
    );
    assert_eq!(one, other);
    let mut third = LuaContext::new();
    assert_eq!(third.parse_all("local a = 1 local b = 3"), Ok(("", ())));
    assert_ne!(one, third);
}

#[test]
fn composites_take_a_last_comma_and_nest() {
    assert_eq!(parse_object("{}"), Ok(("", table(vec![]))));
    assert_eq!(parse_object("{ -- none\n }  x"), Ok(("x", table(vec![]))));
    assert_eq!(
        parse_object("{ 1 , }"),
        Ok(("", LuaObject::Array(vec![LuaObject::Int(1)])))
    );
    assert_eq!(
        parse_object("{a = 1,}"),
        Ok(("", table(vec![("a", LuaObject::Int(1))])))
    );
    assert_eq!(
        parse_object("{{\"b\", 1}, {x = {}}, util.flag}"),
        Ok((
            "",
            LuaObject::Array(vec![
                LuaObject::Array(vec![LuaObject::Str("b".to_string()), LuaObject::Int(1)]),
                table(vec![("x", table(vec![]))]),
                name(&["util", "flag"]),
            ])
        ))
    );
    assert_eq!(parse_object("{,}"), Ok(("", table(vec![]))));
    fails(parse_object("{,,}"), Rule::Object);
    fails(parse_object("{1,,}"), Rule::Object);
    fails(parse_object("{1, 2"), Rule::Object);
    fails(parse_object("{a = 1, 2}"), Rule::Object);
    fails(parse_object("{1, a = 2}"), Rule::Object);
}

#[test]
fn a_key_that_comes_again_gets_the_later_value() {
    assert_eq!(
        parse_map("{a = 1, b = 2, a = 3}"),
        Ok((
            "",
            table(vec![("a", LuaObject::Int(3)), ("b", LuaObject::Int(2))])
        ))
    );
}

#[test]
fn fields() {
    assert_eq!(
        parse_field("amount  =  2 }"),
        Ok(("}", ("amount".to_string(), LuaObject::Int(2))))
    );
    fails(parse_field("amount 2"), Rule::Field);
    fails(parse_field("end = 2"), Rule::Field);
    fails(parse_field("a = "), Rule::Field);
}

#[test]
fn bare_names_are_kept_unevaluated() {
    assert_eq!(parse_object("a.b  ,"), Ok((",", name(&["a", "b"]))));
    fails(parse_object("end"), Rule::Object);
    fails(parse_object(""), Rule::Object);
}

#[test]
fn calls() {
    assert_eq!(
        parse_funcall("f()"),
        Ok(("", LuaExpr::Funcall(vec!["f".to_string()], vec![])))
    );
    assert_eq!(
        parse_expr("util.by_pixel ( 1 , g(x) ) rest"),
        Ok((
            "rest",
            LuaExpr::Funcall(
                vec!["util".to_string(), "by_pixel".to_string()],
                vec![
                    lit(LuaObject::Int(1)),
                    LuaExpr::Funcall(vec!["g".to_string()], vec![lit(name(&["x"]))]),
                ]
            )
        ))
    );
    fails(parse_funcall("f(1,)"), Rule::Funcall);
    fails(parse_funcall("f(1"), Rule::Funcall);
    fails(parse_funcall("f"), Rule::Funcall);
}

#[test]
fn infix_operations_nest_to_the_right() {
    let one = || Box::new(lit(LuaObject::Int(1)));
    assert_eq!(
        parse_expr("1 + 2 * 3"),
        Ok((
            "",
            LuaExpr::Binop(
                BinaryOp::Add,
                one(),
                Box::new(LuaExpr::Binop(
                    BinaryOp::Mul,
                    Box::new(lit(LuaObject::Int(2))),
                    Box::new(lit(LuaObject::Int(3)))
                ))
            )
        ))
    );
    assert_eq!(
        parse_expr("1 * 2 + 3"),
        Ok((
            "",
            LuaExpr::Binop(
                BinaryOp::Mul,
                one(),
                Box::new(LuaExpr::Binop(
                    BinaryOp::Add,
                    Box::new(lit(LuaObject::Int(2))),
                    Box::new(lit(LuaObject::Int(3)))
                ))
            )
        ))
    );
    let cases = [
        ("1 + 1", BinaryOp::Add),
        ("1 - 1", BinaryOp::Sub),
        ("1 * 1", BinaryOp::Mul),
        ("1 / 1", BinaryOp::Div),
        ("1 .. 1", BinaryOp::Concat),
        ("1 == 1", BinaryOp::Eq),
        ("1 ~= 1", BinaryOp::Ne),
    ];
    for (text, op) in cases {
        assert_eq!(parse_expr(text), Ok(("", LuaExpr::Binop(op, one(), one()))));
    }
    assert_eq!(parse_expr("1 = 1"), Ok(("= 1", lit(LuaObject::Int(1)))));
}

#[test]
fn prefix_operations_and_parentheses() {
    assert_eq!(
        parse_expr("# list"),
        Ok((
            "",
            LuaExpr::Unop(UnaryOp::Len, Box::new(lit(name(&["list"]))))
        ))
    );
    assert_eq!(
        parse_expr("( 1 + 2 ) x"),
        Ok((
            "x",
            LuaExpr::Binop(
                BinaryOp::Add,
                Box::new(lit(LuaObject::Int(1))),
                Box::new(lit(LuaObject::Int(2)))
            )
        ))
    );
    fails(parse_expr("(1"), Rule::Expr);
    fails(parse_expr("#"), Rule::Expr);
    fails(parse_expr(")"), Rule::Expr);
}

#[test]
fn functions_with_and_without_a_name() {
    let body = vec![LuaStmt::Return(lit(name(&["a"])))];
    assert_eq!(
        parse_named_function("function id(a) return a end"),
        Ok((
            "",
            (
                "id".to_string(),
                LuaFunction { args: vec!["a".to_string()], body: vec![LuaStmt::Return(lit(name(&["a"])))] }
            )
        ))
    );
    assert_eq!(
        parse_anon_function("function (a, b) return a end tail"),
        Ok((
            "tail",
            LuaFunction { args: vec!["a".to_string(), "b".to_string()], body: vec![LuaStmt::Return(lit(name(&["a"])))] }
        ))
    );
    assert_eq!(
        parse_function(false, "function() return a end"),
        Ok(("", (None, LuaFunction { args: vec![], body })))
    );
    assert_eq!(
        parse_expr("function() return 1 end"),
        Ok((
            "",
            LuaExpr::Fundef(Box::new(LuaFunction {
                args: vec![],
                body: vec![LuaStmt::Return(lit(LuaObject::Int(1)))]
            }))
        ))
    );
    fails(parse_named_function("function (a) return a end"), Rule::Function);
    fails(parse_anon_function("function id(a) return a end"), Rule::Function);
    fails(parse_function(true, "function f() end"), Rule::Function);
    fails(parse_function(true, "function f() return 1"), Rule::Function);
    fails(parse_function(true, "function f(a,) return 1 end"), Rule::Function);
}

#[test]
fn functions_with_a_name_position_of_the_caller() {
    let body = || vec![LuaStmt::Return(lit(name(&["x"])))];
    assert_eq!(
        parse_function_with(parse_namespaced, "function util.id(x) return x end  rest"),
        Ok((
            "rest",
            (
                vec!["util".to_string(), "id".to_string()],
                LuaFunction { args: vec!["x".to_string()], body: body() }
            )
        ))
    );
    assert_eq!(
        parse_function_with(|rest| Ok((rest, ())), "function (x) return x end"),
        Ok(("", ((), LuaFunction { args: vec!["x".to_string()], body: body() })))
    );
    assert_eq!(
        parse_function_with(parse_identifier, "function id(x) return x end"),
        Ok((
            "",
            ("id".to_string(), LuaFunction { args: vec!["x".to_string()], body: body() })
        ))
    );
    assert_eq!(
        parse_function_with(parse_identifier, "function  (x) return x end"),
        Err(trail(&[(Rule::Identifier, 0), (Rule::Function, 10)]))
    );
    assert_eq!(
        parse_function_with(parse_identifier, "function id x"),
        Err(trail(&[(Rule::Function, 0)]))
    );
    assert_eq!(
        parse_function_with(parse_identifier, "local f"),
        Err(trail(&[(Rule::Function, 0)]))
    );
}

#[test]
fn statements() {
    assert_eq!(
        parse_return("return  1 x"),
        Ok(("x", LuaStmt::Return(lit(LuaObject::Int(1)))))
    );
    assert_eq!(
        parse_stmt("return 1"),
        Ok(("", LuaStmt::Return(lit(LuaObject::Int(1)))))
    );
    assert_eq!(
        parse_stmt("a.b = 2"),
        Ok((
            "",
            LuaStmt::Assign(
                LuaLValue::Dotted(vec!["a".to_string(), "b".to_string()]),
                lit(LuaObject::Int(2))
            )
        ))
    );
    assert_eq!(
        parse_stmt("local x = {1}"),
        Ok((
            "",
            LuaStmt::Assign(
                LuaLValue::Dotted(vec!["x".to_string()]),
                lit(LuaObject::Array(vec![LuaObject::Int(1)]))
            )
        ))
    );
    assert_eq!(
        parse_stmt("f(1) g"),
        Ok((
            "g",
            LuaStmt::Expr(LuaExpr::Funcall(vec!["f".to_string()], vec![lit(LuaObject::Int(1))]))
        ))
    );
    fails(parse_return("return"), Rule::Return);
    fails(parse_stmt("end"), Rule::Stmt);
    fails(parse_stmt("= 1"), Rule::Stmt);
}

#[test]
fn local_bindings() {
    assert_eq!(
        parse_local("local x = f()  y"),
        Ok(("y", ("x".to_string(), LuaExpr::Funcall(vec!["f".to_string()], vec![]))))
    );
    fails(parse_local("x = 1"), Rule::Local);
    fails(parse_local("local x"), Rule::Local);
    fails(parse_local("local end = 1"), Rule::Local);
}

#[test]
fn targets_with_indices_nest_to_the_left() {
    let a = || LuaLValue::Dotted(vec!["a".to_string(), "b".to_string()]);
    assert_eq!(parse_lvalue("a.b ="), Ok(("=", a())));
    assert_eq!(
        parse_lvalue("a.b[1] ="),
        Ok(("=", LuaLValue::Subscript(Box::new(a()), lit(LuaObject::Int(1)))))
    );
    assert_eq!(
        parse_lvalue("a.b [ 1 ] [\"k\"] ="),
        Ok((
            "=",
            LuaLValue::Subscript(
                Box::new(LuaLValue::Subscript(Box::new(a()), lit(LuaObject::Int(1)))),
                lit(LuaObject::Str("k".to_string()))
            )
        ))
    );
    assert_eq!(parse_lvalue("a.b[1"), Ok(("[1", a())));
    assert_eq!(
        parse_stmt("t[i] = 0"),
        Ok((
            "",
            LuaStmt::Assign(
                LuaLValue::Subscript(
                    Box::new(LuaLValue::Dotted(vec!["t".to_string()])),
                    lit(name(&["i"]))
                ),
                lit(LuaObject::Int(0))
            )
        ))
    );
    fails(parse_lvalue("[1]"), Rule::LValue);
}

#[test]
fn conditionals_with_and_without_else() {
    let one = || vec![LuaStmt::Return(lit(LuaObject::Int(1)))];
    let two = || vec![LuaStmt::Return(lit(LuaObject::Int(2)))];
    assert_eq!(
        parse_stmt("if x then return 1 end"),
        Ok(("", LuaStmt::IfThen(lit(name(&["x"])), one(), vec![])))
    );
    assert_eq!(
        parse_stmt("if x == 1 then return 1 else return 2 end  y"),
        Ok((
            "y",
            LuaStmt::IfThen(
                LuaExpr::Binop(
                    BinaryOp::Eq,
                    Box::new(lit(name(&["x"]))),
                    Box::new(lit(LuaObject::Int(1)))
                ),
                one(),
                two()
            )
        ))
    );
    assert_eq!(
        parse_stmt("if a then if b then return 1 end a = 1 end"),
        Ok((
            "",
            LuaStmt::IfThen(
                lit(name(&["a"])),
                vec![
                    LuaStmt::IfThen(lit(name(&["b"])), one(), vec![]),
                    LuaStmt::Assign(
                        LuaLValue::Dotted(vec!["a".to_string()]),
                        lit(LuaObject::Int(1))
                    )
                ],
                vec![]
            )
        ))
    );
    fails(parse_stmt("if x then end"), Rule::Stmt);
    fails(parse_stmt("if x then return 1 else end"), Rule::Stmt);
    fails(parse_stmt("if x then return 1"), Rule::Stmt);
    fails(parse_stmt("if x return 1 end"), Rule::Stmt);
}

#[test]
fn registration_call_alone() {
    assert_eq!(
        parse_data_extend("data:extend( {1} )  next"),
        Ok(("next", LuaObject::Array(vec![LuaObject::Int(1)])))
    );
    fails(parse_data_extend("data:extend({1}"), Rule::DataExtend);
    fails(parse_data_extend("data.extend({1})"), Rule::DataExtend);
}

#[test]
fn unhandled_body_ends_before_end() {
    assert_eq!(
        parse_unhandled_body("x = 1 end"),
        Ok(("end", lit(LuaObject::Str("x = 1 ".to_string()))))
    );
    assert_eq!(
        parse_unhandled_body("end"),
        Ok(("end", lit(LuaObject::Str(String::new()))))
    );
    fails(parse_unhandled_body("x = 1"), Rule::UnhandledBody);
}

#[test]
fn a_pass_gathers_bindings_functions_and_registrations() {
    let mut ctx = LuaContext::new();
    let source = "-- recipes\nlocal a = 1\nfunction f(x) return x end\ndata:extend({1})\nlocal a = 2\nf(a)\ndata:extend({2})\n";
    assert_eq!(ctx.parse_all(source), Ok(("", ())));
    assert_eq!(ctx.locals.len(), 1);
    assert_eq!(ctx.locals.get("a"), Some(&lit(LuaObject::Int(2))));
    assert_eq!(ctx.functions.len(), 1);
    assert_eq!(
        ctx.functions.get("f"),
        Some(&LuaFunction {
            args: vec!["x".to_string()],
            body: vec![LuaStmt::Return(lit(name(&["x"])))]
        })
    );
    assert_eq!(
        ctx.data_extends,
        vec![
            LuaObject::Array(vec![LuaObject::Int(1)]),
            LuaObject::Array(vec![LuaObject::Int(2)])
        ]
    );
}

#[test]
fn one_form_at_a_time() {
    let mut ctx = LuaContext::new();
    assert_eq!(ctx.parse_toplevel("local a = 1 local b = 2"), Ok(("local b = 2", ())));
    assert_eq!(ctx.parse_toplevel("local b = 2"), Ok(("", ())));
    assert_eq!(ctx.parse_toplevel("x = 3"), Ok(("", ())));
    assert_eq!(ctx.locals.len(), 2);
    assert_eq!(ctx.functions.len(), 0);
    assert_eq!(ctx.data_extends.len(), 0);
}

#[test]
fn a_malformed_form_fails_the_pass_and_changes_nothing() {
    let mut ctx = LuaContext::new();
    assert_eq!(ctx.parse_all("local a = 1\ndata:extend({7})\n"), Ok(("", ())));
    let mut same = LuaContext::new();
    assert_eq!(same.parse_all("local a = 1\ndata:extend({7})\n"), Ok(("", ())));
    assert_eq!(ctx.parse_toplevel("{1, 2"), Err(no_form(0)));
    assert_eq!(ctx, same);
    assert_eq!(ctx.parse_all("{1, 2"), Err(no_form(0)));
    assert_eq!(ctx, same);
}

#[test]
fn a_failed_pass_keeps_the_forms_before_the_failure() {
    let mut ctx = LuaContext::new();
    let source = "  local a = 1\ndata:extend({7})\n= {1, 2";
    assert_eq!(ctx.parse_all(source), Err(no_form(31)));
    let mut before = LuaContext::new();
    assert_eq!(before.parse_all("local a = 1\ndata:extend({7})"), Ok(("", ())));
    assert_eq!(ctx, before);
}

#[test]
fn an_empty_source_holds_no_form() {
    let mut ctx = LuaContext::new();
    assert_eq!(ctx.parse_all(""), Err(no_form(0)));
    assert_eq!(ctx.parse_all("  -- only a comment\n"), Err(no_form(20)));
    assert_eq!(ctx, LuaContext::new());
}

#[test]
fn a_trail_names_the_rules_from_the_innermost_out() {
    assert_eq!(parse_bool("x"), Err(trail(&[(Rule::Bool, 0)])));
    assert_eq!(parse_num("1.2.3"), Err(trail(&[(Rule::Num, 0)])));
    assert_eq!(parse_str("\"open"), Err(trail(&[(Rule::Str, 5)])));
    assert_eq!(parse_identifier("end"), Err(trail(&[(Rule::Identifier, 0)])));
    assert_eq!(
        parse_namespaced("1"),
        Err(trail(&[(Rule::Identifier, 0), (Rule::Namespaced, 0)]))
    );
    assert_eq!(
        parse_object("{1, 2"),
        Err(trail(&[(Rule::Identifier, 0), (Rule::Namespaced, 0), (Rule::Object, 0)]))
    );
    assert_eq!(parse_array("{1, 2"), Err(trail(&[(Rule::Array, 5)])));
    assert_eq!(parse_array("[1]"), Err(trail(&[(Rule::Array, 0)])));
    assert_eq!(
        parse_array("{ = }"),
        Err(trail(&[
            (Rule::Identifier, 2),
            (Rule::Namespaced, 2),
            (Rule::Object, 2),
            (Rule::Array, 2)
        ]))
    );
    assert_eq!(parse_map("{a = 1 b = 2}"), Err(trail(&[(Rule::Table, 7)])));
    assert_eq!(parse_field("a : 1"), Err(trail(&[(Rule::Field, 2)])));
    assert_eq!(
        parse_field("a = ?"),
        Err(trail(&[
            (Rule::Identifier, 4),
            (Rule::Namespaced, 4),
            (Rule::Object, 4),
            (Rule::Field, 4)
        ]))
    );
    assert_eq!(parse_field("1 = 1"), Err(trail(&[(Rule::Identifier, 0), (Rule::Field, 0)])));
    assert_eq!(parse_funcall("f(1"), Err(trail(&[(Rule::Funcall, 3)])));
    assert_eq!(parse_funcall("f 1"), Err(trail(&[(Rule::Funcall, 2)])));
    assert_eq!(
        parse_return("return )"),
        Err(trail(&[
            (Rule::Identifier, 7),
            (Rule::Namespaced, 7),
            (Rule::Object, 7),
            (Rule::Expr, 7),
            (Rule::Return, 7)
        ]))
    );
    assert_eq!(parse_local("local x 1"), Err(trail(&[(Rule::Local, 8)])));
    assert_eq!(
        parse_local("local 1"),
        Err(trail(&[(Rule::Identifier, 6), (Rule::Local, 6)]))
    );
    assert_eq!(
        parse_function(true, "function f(a) end"),
        Err(trail(&[
            (Rule::Identifier, 14),
            (Rule::Namespaced, 14),
            (Rule::Object, 14),
            (Rule::Expr, 14),
            (Rule::Stmt, 14),
            (Rule::Block, 14),
            (Rule::Function, 14)
        ]))
    );
    assert_eq!(
        parse_function(true, "function f(a) return a"),
        Err(trail(&[(Rule::Function, 22)]))
    );
    assert_eq!(parse_function(true, "function f(a,) return a end"), Err(trail(&[(Rule::Function, 12)])));
    assert_eq!(
        parse_function(true, "function (a) return a end"),
        Err(trail(&[(Rule::Identifier, 9), (Rule::Function, 9)]))
    );
    assert_eq!(parse_function(false, "function f() return a end"), Err(trail(&[(Rule::Function, 9)])));
    assert_eq!(parse_data_extend("data:extend({1}"), Err(trail(&[(Rule::DataExtend, 15)])));
    assert_eq!(parse_data_extend("data"), Err(trail(&[(Rule::DataExtend, 0)])));
    assert_eq!(parse_unhandled_body("x"), Err(trail(&[(Rule::UnhandledBody, 0)])));
    assert_eq!(commaspace(";"), Err(trail(&[(Rule::Comma, 0)])));
    assert_eq!(parse_lvalue("1"), Err(trail(&[(Rule::Identifier, 0), (Rule::Namespaced, 0), (Rule::LValue, 0)])));
}
