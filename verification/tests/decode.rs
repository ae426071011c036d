use lua_prototypes::decode::{
    optional, present, required, text_less, Decode, DecodeError, DecodeErrorKind, LuaNumber,
    PathStep,
};
use lua_prototypes::dict::Dict;
use lua_prototypes::lua_parser::{parse_object, LuaContext};
use lua_prototypes::recipe::{ConversionExt, FieldError, Ingredient, Recipe, RecipeMap};
use lua_prototypes::technology::Technology;
use lua_prototypes::tree::{LuaExpr, LuaObject};

fn value(text: &str) -> LuaObject {
    let (rest, v) = parse_object(text).unwrap();
    assert_eq!(rest, "");
    v
}

fn entries(text: &str) -> Dict<LuaObject> {
    match value(text) {
        LuaObject::Table(d) => d,
        other => panic!("{:?}", other),
    }
}

fn error(kind: DecodeErrorKind, path: Vec<PathStep>) -> DecodeError {
    DecodeError { kind, path }
}

fn key(k: &str) -> PathStep {
    PathStep::Key(k.to_string())
}

fn item(name: &str, amount: i64) -> Ingredient {
    Ingredient { name: name.to_string(), amount, type_: "item".to_string() }
}

#[test]
fn scalars_need_their_own_variant() {
    assert_eq!(bool::decode(&value("true")), Ok(true));
    assert_eq!(bool::decode(&value("1")), Err(error(DecodeErrorKind::NotABool, vec![])));
    assert_eq!(String::decode(&value("\"a\"")), Ok("a".to_string()));
    assert_eq!(String::decode(&value("a")), Err(error(DecodeErrorKind::NotAString, vec![])));
    assert_eq!(i64::decode(&value("-3")), Ok(-3));
    assert_eq!(i64::decode(&value("3.5")), Err(error(DecodeErrorKind::NotAnInteger, vec![])));
    assert_eq!(i64::decode(&value("\"3\"")), Err(error(DecodeErrorKind::NotAnInteger, vec![])));
}

#[test]
fn numbers_take_integers_too() {
    assert_eq!(LuaNumber::decode(&value("2")), Ok(LuaNumber::Int(2)));
    assert_eq!(LuaNumber::decode(&value("0.5")), Ok(LuaNumber::Float("0.5".to_string())));
    assert_eq!(
        LuaNumber::decode(&value("true")),
        Err(error(DecodeErrorKind::NotANumber, vec![]))
    );
}

#[test]
fn values_convert_to_themselves() {
    let v = value("{a = {1, x.y}, b = \"s\"}");
    assert_eq!(LuaObject::decode(&v), Ok(v.clone()));
    assert_eq!(v.clone(), v);
}

#[test]
fn sequences_name_the_index_that_fails() {
    assert_eq!(Vec::<i64>::decode(&value("{1, 2, 3}")), Ok(vec![1, 2, 3]));
    assert_eq!(
        Vec::<i64>::decode(&value("{1, \"x\", true}")),
        Err(error(DecodeErrorKind::NotAnInteger, vec![PathStep::Index(1)]))
    );
    assert_eq!(
        Vec::<Vec<bool>>::decode(&value("{{true}, {false, 2}}")),
        Err(error(
            DecodeErrorKind::NotABool,
            vec![PathStep::Index(1), PathStep::Index(1)]
        ))
    );
    assert_eq!(
        Vec::<i64>::decode(&value("{}")),
        Err(error(DecodeErrorKind::NotAnArray, vec![]))
    );
    assert_eq!(
        Vec::<i64>::decode(&value("7")),
        Err(error(DecodeErrorKind::NotAnArray, vec![]))
    );
}

#[test]
fn mappings_name_the_key_that_fails() {
    let d = Dict::<i64>::decode(&value("{a = 1, b = 2}")).unwrap();
    assert_eq!(d.len(), 2);
    assert_eq!(d.get("a"), Some(&1));
    assert_eq!(d.get("b"), Some(&2));
    assert_eq!(Dict::<i64>::decode(&value("{}")).unwrap().len(), 0);
    assert_eq!(
        Dict::<i64>::decode(&value("{a = 1, b = \"x\", c = true}")),
        Err(error(DecodeErrorKind::NotAnInteger, vec![key("b")]))
    );
    assert_eq!(
        Dict::<Vec<i64>>::decode(&value("{a = {1, true}}")),
        Err(error(DecodeErrorKind::NotAnInteger, vec![key("a"), PathStep::Index(1)]))
    );
    assert_eq!(
        Dict::<i64>::decode(&value("{1}")),
        Err(error(DecodeErrorKind::NotATable, vec![]))
    );
}

#[test]
fn of_the_keys_that_fail_the_first_in_the_dictionary_is_named() {
    assert_eq!(
        Dict::<i64>::decode(&value("{c = true, b = \"x\", a = 1, ab = {}}")),
        Err(error(DecodeErrorKind::NotAnInteger, vec![key("ab")]))
    );
    assert_eq!(
        Dict::<i64>::decode(&value("{b = \"x\", c = true}")),
        Dict::<i64>::decode(&value("{c = true, b = \"x\"}"))
    );
    assert_eq!(
        Dict::<i64>::decode(&value("{b = 2, a = 1}")),
        Dict::<i64>::decode(&value("{a = 1, b = 2}"))
    );
    assert!(text_less("", "a"));
    assert!(text_less("a", "ab"));
    assert!(text_less("ab", "b"));
    assert!(text_less("B", "a"));
    assert!(!text_less("a", "a"));
    assert!(!text_less("b", "ab"));
    assert!(!text_less("a", ""));
}

fn d_len(d: &Dict<LuaObject>) -> usize {
    d.entries.len()
}

#[test]
fn entries_that_an_earlier_one_hides_do_not_count() {
    let hidden = Dict {
        entries: vec![
            ("a".to_string(), LuaObject::Int(1)),
            ("b".to_string(), LuaObject::Int(2)),
            ("a".to_string(), LuaObject::Bool(true)),
        ],
    };
    let plain = Dict {
        entries: vec![("b".to_string(), LuaObject::Int(2)), ("a".to_string(), LuaObject::Int(1))],
    };
    assert_eq!(hidden, plain);
    assert_eq!(plain, hidden);
    assert_eq!(d_len(&hidden), 3);
    let again = LuaObject::Table(Dict {
        entries: vec![
            ("a".to_string(), LuaObject::Int(1)),
            ("b".to_string(), LuaObject::Int(2)),
            ("a".to_string(), LuaObject::Bool(true)),
        ],
    });
    assert_eq!(again, LuaObject::Table(plain));
    assert_eq!(Dict::<i64>::decode(&again).map(|d| d.len()), Ok(2));
    assert_eq!(again.clone().simplify(), again);
    let mut d = hidden;
    assert_eq!(d.get("a"), Some(&LuaObject::Int(1)));
    assert_eq!(d.remove_entry("a"), Some(("a".to_string(), LuaObject::Int(1))));
    assert_eq!(d.get("a"), None);
    assert_eq!(d.len(), 1);
    assert_eq!(d.remove_entry("a"), None);
}

#[test]
fn pairs_need_two_elements() {
    assert_eq!(
        <(String, i64)>::decode(&value("{\"b\", 1}")),
        Ok(("b".to_string(), 1))
    );
    assert_eq!(
        <(String, i64)>::decode(&value("{\"b\"}")),
        Err(error(DecodeErrorKind::WrongLength, vec![]))
    );
    assert_eq!(
        <(String, i64)>::decode(&value("{\"b\", 1, 2}")),
        Err(error(DecodeErrorKind::WrongLength, vec![]))
    );
    assert_eq!(
        <(String, i64)>::decode(&value("\"b\"")),
        Err(error(DecodeErrorKind::NotAnArray, vec![]))
    );
    assert_eq!(
        <(String, i64)>::decode(&value("{1, 1}")),
        Err(error(DecodeErrorKind::NotAString, vec![PathStep::Index(0)]))
    );
    assert_eq!(
        <(String, i64)>::decode(&value("{\"b\", \"c\"}")),
        Err(error(DecodeErrorKind::NotAnInteger, vec![PathStep::Index(1)]))
    );
}

#[test]
fn taking_a_field_tells_absent_from_malformed() {
    let mut d = entries("{name = \"a\", amount = \"many\", on = true}");
    assert_eq!(d.field::<String>("name"), Ok("a".to_string()));
    assert_eq!(d.len(), 2);
    assert_eq!(d.field::<String>("name"), Err(FieldError::Missing));
    assert_eq!(d.len(), 2);
    assert_eq!(
        d.field::<i64>("amount"),
        Err(FieldError::Malformed(error(DecodeErrorKind::NotAnInteger, vec![key("amount")])))
    );
    assert_eq!(d.len(), 1);
    assert_eq!(d.field::<bool>("on"), Ok(true));
    assert_eq!(d.len(), 0);
}

#[test]
fn fields_by_reference() {
    let d = entries("{name = \"a\", amount = \"many\"}");
    assert_eq!(required::<String>(&d, "name"), Ok("a".to_string()));
    assert_eq!(
        required::<String>(&d, "type"),
        Err(error(DecodeErrorKind::MissingKey, vec![key("type")]))
    );
    assert_eq!(
        required::<i64>(&d, "amount"),
        Err(error(DecodeErrorKind::NotAnInteger, vec![key("amount")]))
    );
    assert_eq!(optional::<i64>(&d, "amount", 1), 1);
    assert_eq!(optional::<i64>(&d, "count", 5), 5);
    assert_eq!(optional::<String>(&d, "name", "z".to_string()), "a");
    assert_eq!(present::<i64>(&d, "count", 5), Ok(5));
    assert_eq!(
        present::<i64>(&d, "amount", 5),
        Err(error(DecodeErrorKind::NotAnInteger, vec![key("amount")]))
    );
    assert_eq!(d.len(), 2);
}

#[test]
fn dict_binds_and_takes_out() {
    let mut d: Dict<i64> = Dict::new();
    assert_eq!(d.insert("a".to_string(), 1), None);
    assert_eq!(d.insert("b".to_string(), 2), None);
    assert_eq!(d.insert("a".to_string(), 3), Some(1));
    assert_eq!(d.entries, vec![("a".to_string(), 3), ("b".to_string(), 2)]);
    assert_eq!(d.find("b"), Some(1));
    assert_eq!(d.find("c"), None);
    assert_eq!(d.get("a"), Some(&3));
    assert_eq!(d.remove_entry("a"), Some(("a".to_string(), 3)));
    assert_eq!(d.remove_entry("a"), None);
    assert_eq!(d.len(), 1);
}

#[test]
fn ingredients_come_as_pairs_or_tables() {
    assert_eq!(Ingredient::decode(&value("{\"b\", 1}")), Ok(item("b", 1)));
    assert_eq!(
        Ingredient::decode(&value("{type = \"fluid\", name = \"water\", amount = 50}")),
        Ok(Ingredient { name: "water".to_string(), amount: 50, type_: "fluid".to_string() })
    );
    assert_eq!(Ingredient::decode(&value("{name = \"gear\"}")), Ok(item("gear", 1)));
    assert_eq!(
        Ingredient::decode(&value("{name = \"gear\", amount = \"x\", type = 3}")),
        Ok(item("gear", 1))
    );
    assert_eq!(
        Ingredient::decode(&value("{amount = 2}")),
        Err(error(DecodeErrorKind::MissingKey, vec![key("name")]))
    );
    assert_eq!(
        Ingredient::decode(&value("{name = 2}")),
        Err(error(DecodeErrorKind::NotAString, vec![key("name")]))
    );
    assert_eq!(
        Ingredient::decode(&value("{\"b\"}")),
        Err(error(DecodeErrorKind::NoShapeFits, vec![]))
    );
    assert_eq!(
        Ingredient::decode(&value("\"b\"")),
        Err(error(DecodeErrorKind::NoShapeFits, vec![]))
    );
}

#[test]
fn one_registration_call_gives_one_recipe() {
    let mut ctx = LuaContext::new();
    let source = "data:extend({ { name = \"a\", ingredients = {{\"b\", 1}}, results = {{\"a\", 1}} } })";
    assert_eq!(ctx.parse_all(source), Ok(("", ())));
    assert_eq!(ctx.locals.len(), 0);
    assert_eq!(ctx.functions.len(), 0);
    assert_eq!(ctx.data_extends.len(), 1);
    let recipes = Vec::<Recipe>::decode(&ctx.data_extends[0]).unwrap();
    assert_eq!(
        recipes,
        vec![Recipe {
            name: "a".to_string(),
            category: "crafting".to_string(),
            enabled: true,
            ingredients: vec![item("b", 1)],
            energy_required: LuaNumber::Int(1),
            results: vec![item("a", 1)],
        }]
    );
    let simplified = ctx.data_extends.remove(0).simplify();
    assert_eq!(Vec::<Recipe>::decode(&simplified).unwrap(), recipes);
}

#[test]
fn recipes_read_what_the_table_says() {
    let r = Recipe::decode(&value(
        "{name = \"gear\", category = \"smelting\", enabled = false, energy_required = 0.5, \
         ingredients = {{\"iron\", 2}}, result = \"gear\", result_count = 3}",
    ))
    .unwrap();
    assert_eq!(
        r,
        Recipe {
            name: "gear".to_string(),
            category: "smelting".to_string(),
            enabled: false,
            ingredients: vec![item("iron", 2)],
            energy_required: LuaNumber::Float("0.5".to_string()),
            results: vec![item("gear", 3)],
        }
    );
    let r = Recipe::decode(&value(
        "{name = \"gear\", ingredients = {}, result = \"gear\", energy_required = 4}",
    ));
    assert_eq!(r, Err(error(DecodeErrorKind::NotAnArray, vec![key("ingredients")])));
    let r = Recipe::decode(&value("{name = \"gear\", ingredients = {{\"iron\", 2}}, result = \"gear\", energy_required = 4}"))
        .unwrap();
    assert_eq!(r.results, vec![item("gear", 1)]);
    assert_eq!(r.energy_required, LuaNumber::Int(4));
}

#[test]
fn recipes_prefer_the_table_under_normal() {
    let r = Recipe::decode(&value(
        "{name = \"gear\", enabled = false, ingredients = {{\"x\", 9}}, result = \"x\", \
         normal = {ingredients = {{\"iron\", 2}}, results = {{\"gear\", 1}, {name = \"slag\"}}}, \
         expensive = {ingredients = {{\"iron\", 4}}, result = \"gear\"}}",
    ))
    .unwrap();
    assert_eq!(r.name, "gear");
    assert!(r.enabled);
    assert_eq!(r.ingredients, vec![item("iron", 2)]);
    assert_eq!(r.results, vec![item("gear", 1), item("slag", 1)]);
    let r = Recipe::decode(&value(
        "{name = \"gear\", normal = 3, ingredients = {{\"x\", 9}}, result = \"x\"}",
    ))
    .unwrap();
    assert_eq!(r.ingredients, vec![item("x", 9)]);
}

#[test]
fn recipes_fail_on_what_they_need() {
    assert_eq!(
        Recipe::decode(&value("{1}")),
        Err(error(DecodeErrorKind::NotATable, vec![]))
    );
    assert_eq!(
        Recipe::decode(&value("{ingredients = {{\"b\", 1}}, result = \"a\"}")),
        Err(error(DecodeErrorKind::MissingKey, vec![key("name")]))
    );
    assert_eq!(
        Recipe::decode(&value("{name = \"a\", ingredients = {{\"b\", 1}}}")),
        Err(error(DecodeErrorKind::MissingKey, vec![key("result")]))
    );
    assert_eq!(
        Recipe::decode(&value("{name = \"a\", result = \"a\"}")),
        Err(error(DecodeErrorKind::MissingKey, vec![key("ingredients")]))
    );
    assert_eq!(
        Recipe::decode(&value("{name = \"a\", result = 1, ingredients = {{\"b\", 1}}}")),
        Err(error(DecodeErrorKind::NotAString, vec![key("result")]))
    );
    assert_eq!(
        Recipe::decode(&value(
            "{name = \"a\", result = \"a\", result_count = \"x\", ingredients = {{\"b\", 1}}}"
        )),
        Err(error(DecodeErrorKind::NotAnInteger, vec![key("result_count")]))
    );
    assert_eq!(
        Recipe::decode(&value(
            "{name = \"a\", results = {{\"a\", 1}, {\"b\"}}, ingredients = {{\"b\", 1}}}"
        )),
        Err(error(DecodeErrorKind::NoShapeFits, vec![key("results"), PathStep::Index(1)]))
    );
    assert_eq!(
        Recipe::decode(&value(
            "{name = \"a\", results = {{\"a\", 1}}, ingredients = {{\"b\", 1}, {amount = 2}}}"
        )),
        Err(error(
            DecodeErrorKind::MissingKey,
            vec![key("ingredients"), PathStep::Index(1), key("name")]
        ))
    );
}

#[test]
fn recipes_are_grouped_by_what_they_make() {
    let text = |name: &str, results: &str| {
        Recipe::decode(&value(&format!(
            "{{name = \"{}\", ingredients = {{{{\"x\", 1}}}}, results = {}}}",
            name, results
        )))
        .unwrap()
    };
    let one = text("one", "{{\"a\", 1}, {\"b\", 1}}");
    let two = text("two", "{{\"b\", 2}}");
    let three = text("three", "{{\"c\", 1}, {\"a\", 1}, {\"c\", 1}}");
    let map = RecipeMap::new(vec![one.clone(), two.clone(), three.clone()]);
    assert_eq!(map.0.len(), 3);
    assert_eq!(map.0.get("a"), Some(&vec![one.clone(), three.clone()]));
    assert_eq!(map.0.get("b"), Some(&vec![one.clone(), two.clone()]));
    assert_eq!(map.0.get("c"), Some(&vec![three.clone(), three.clone()]));
    assert_eq!(map.0.get("x"), None);
    assert_eq!(
        map,
        RecipeMap(Dict {
            entries: vec![
                ("c".to_string(), vec![three.clone(), three.clone()]),
                ("a".to_string(), vec![one.clone(), three.clone()]),
                ("b".to_string(), vec![one.clone(), two.clone()]),
            ]
        })
    );
    assert_eq!(RecipeMap::new(vec![]).0.len(), 0);
    assert_eq!(one.duplicate(), one);
}

#[test]
fn simplify_unwraps_literals() {
    let wrap = |v: LuaObject| LuaObject::Expr(Box::new(LuaExpr::Literal(v)));
    let call = LuaObject::Expr(Box::new(LuaExpr::Funcall(
        vec!["f".to_string()],
        vec![LuaExpr::Literal(wrap(LuaObject::Int(1)))],
    )));
    assert_eq!(wrap(LuaObject::Int(1)).simplify(), LuaObject::Int(1));
    assert_eq!(wrap(wrap(LuaObject::Bool(true))).simplify(), LuaObject::Bool(true));
    assert_eq!(call.clone().simplify(), call);
    assert_eq!(value("a.b").simplify(), value("a.b"));
    let nested = LuaObject::Array(vec![
        wrap(LuaObject::Int(1)),
        LuaObject::Table(Dict {
            entries: vec![
                ("k".to_string(), wrap(LuaObject::Array(vec![wrap(LuaObject::Str("s".to_string()))]))),
                ("c".to_string(), call.clone()),
            ],
        }),
        LuaObject::Float("0.5".to_string()),
    ]);
    let plain = LuaObject::Array(vec![
        LuaObject::Int(1),
        LuaObject::Table(Dict {
            entries: vec![
                ("k".to_string(), LuaObject::Array(vec![LuaObject::Str("s".to_string())])),
                ("c".to_string(), call.clone()),
            ],
        }),
        LuaObject::Float("0.5".to_string()),
    ]);
    assert_eq!(nested.clone().simplify(), plain);
}

#[test]
fn simplify_twice_is_simplify_once() {
    let wrap = |v: LuaObject| LuaObject::Expr(Box::new(LuaExpr::Literal(v)));
    let v = LuaObject::Array(vec![
        wrap(wrap(LuaObject::Int(1))),
        wrap(LuaObject::Array(vec![wrap(LuaObject::Int(2)), value("{a = x.y, b = {1}}")])),
    ]);
    let once = v.simplify();
    assert_eq!(once.clone().simplify(), once);
}

#[test]
fn failures_in_words() {
    assert_eq!(
        error(DecodeErrorKind::NotABool, vec![]).describe(),
        "value is not a boolean"
    );
    assert_eq!(
        error(
            DecodeErrorKind::MissingKey,
            vec![key("ingredients"), PathStep::Index(12), key("name")]
        )
        .describe(),
        "value.ingredients[12].name is a missing key"
    );
    assert_eq!(
        error(DecodeErrorKind::WrongLength, vec![PathStep::Index(0), PathStep::Index(1907)])
            .describe(),
        "value[0][1907] is an array of the wrong length"
    );
    let cases = [
        (DecodeErrorKind::NotAString, "value is not a string"),
        (DecodeErrorKind::NotAnInteger, "value is not an integer"),
        (DecodeErrorKind::NotANumber, "value is not a number"),
        (DecodeErrorKind::NotATable, "value is not a table"),
        (DecodeErrorKind::NotAnArray, "value is not an array"),
        (DecodeErrorKind::NoShapeFits, "value is of no shape that fits"),
    ];
    for (kind, text) in cases {
        assert_eq!(error(kind, vec![]).describe(), text);
    }
}

#[test]
fn technologies_read_their_unit() {
    let t = Technology::decode(&value(
        "{type = \"technology\", name = \"steel\", effects = {{type = \"unlock\"}}, \
         prerequisites = {\"iron\"}, unit = {count = 50, ingredients = {{\"red\", 1}}, time = 5}}",
    ))
    .unwrap();
    assert_eq!(t.name, "steel");
    assert_eq!(t.type_, "technology");
    assert_eq!(t.effects, vec![value("{type = \"unlock\"}")]);
    assert_eq!(t.prerequisites, vec!["iron".to_string()]);
    assert_eq!(t.ingredient_count, LuaObject::Int(50));
    assert_eq!(t.ingredients, vec![item("red", 1)]);
    assert_eq!(t.ingredient_time, LuaNumber::Int(5));
    let t = Technology::decode(&value(
        "{type = \"technology\", name = \"steel\", \
         unit = {count_formula = \"2^L\", ingredients = {{\"red\", 1}}, time = 0.5}}",
    ))
    .unwrap();
    assert_eq!(t.effects, vec![]);
    assert_eq!(t.prerequisites, Vec::<String>::new());
    assert_eq!(t.ingredient_count, LuaObject::Str("2^L".to_string()));
    assert_eq!(t.ingredient_time, LuaNumber::Float("0.5".to_string()));
}

#[test]
fn technologies_fail_on_what_they_need() {
    let fails = |text: &str, kind: DecodeErrorKind, path: Vec<PathStep>| {
        assert_eq!(Technology::decode(&value(text)), Err(error(kind, path)));
    };
    fails("7", DecodeErrorKind::NotATable, vec![]);
    fails("{type = \"t\"}", DecodeErrorKind::MissingKey, vec![key("name")]);
    fails("{name = \"t\"}", DecodeErrorKind::MissingKey, vec![key("type")]);
    fails(
        "{name = \"t\", type = \"t\", effects = 1}",
        DecodeErrorKind::NotAnArray,
        vec![key("effects")],
    );
    fails(
        "{name = \"t\", type = \"t\", prerequisites = {1}}",
        DecodeErrorKind::NotAString,
        vec![key("prerequisites"), PathStep::Index(0)],
    );
    fails("{name = \"t\", type = \"t\"}", DecodeErrorKind::MissingKey, vec![key("unit")]);
    fails("{name = \"t\", type = \"t\", unit = 1}", DecodeErrorKind::NotATable, vec![key("unit")]);
    fails(
        "{name = \"t\", type = \"t\", unit = {time = 1}}",
        DecodeErrorKind::MissingKey,
        vec![key("unit"), key("count_formula")],
    );
    fails(
        "{name = \"t\", type = \"t\", unit = {count = 1, time = 1}}",
        DecodeErrorKind::MissingKey,
        vec![key("unit"), key("ingredients")],
    );
    fails(
        "{name = \"t\", type = \"t\", unit = {count = 1, ingredients = {{\"a\", 1}}, time = \"x\"}}",
        DecodeErrorKind::NotANumber,
        vec![key("unit"), key("time")],
    );
}
