use crate::decode::{
    lemma_table_view, present, present_field, required, required_field, Decode,
    DecodeError, DecodeErrorKind, Failure, LuaNumber, Number, PathStep, Step,
};
use crate::dict::Dict;
use crate::model::{Text, Value};
use crate::recipe::{Ingredient, IngredientModel};
use crate::tree::LuaObject;
use vstd::prelude::*;

verus! {

/// A technology: what it unlocks, what it needs researched first, and what its research
/// costs.
#[derive(Debug, Clone, PartialEq)]
pub struct Technology {
    pub name: String,
    pub type_: String,
    pub effects: Vec<LuaObject>,
    pub prerequisites: Vec<String>,
    /// How many units the research takes: a number, or a formula.
    pub ingredient_count: LuaObject,
    pub ingredients: Vec<Ingredient>,
    pub ingredient_time: LuaNumber,
}

/// The mathematical value of a `Technology`.
pub struct TechnologyModel {
    pub name: Text,
    pub type_: Text,
    pub effects: Seq<Value>,
    pub prerequisites: Seq<Text>,
    pub ingredient_count: Value,
    pub ingredients: Seq<IngredientModel>,
    pub ingredient_time: Number,
}

impl DeepView for Technology {
    type V = TechnologyModel;

    open spec fn deep_view(&self) -> TechnologyModel {
        TechnologyModel {
            name: self.name@,
            type_: self.type_@,
            effects: self.effects.deep_view(),
            prerequisites: self.prerequisites.deep_view(),
            ingredient_count: self.ingredient_count@,
            ingredients: self.ingredients.deep_view(),
            ingredient_time: self.ingredient_time.deep_view(),
        }
    }
}

/// What a research unit costs: the count, the ingredients and the time.
pub struct UnitModel {
    pub count: Value,
    pub ingredients: Seq<IngredientModel>,
    pub time: Number,
}

/// How many units: what stands under `count`, or else under `count_formula`.
pub open spec fn decoded_count(unit: Map<Text, Value>) -> Result<Value, Failure> {
    if unit.contains_key("count"@) {
        Ok(unit["count"@])
    } else {
        required_field::<LuaObject>(unit, "count_formula"@)
    }
}

/// What the conversion of the table under `unit` gives: the count, the ingredients and
/// the time are needed, and fail in that order.
pub open spec fn decoded_unit(unit: Map<Text, Value>) -> Result<UnitModel, Failure> {
    match decoded_count(unit) {
        Err(f) => Err(f),
        Ok(count) => match required_field::<Vec<Ingredient>>(unit, "ingredients"@) {
            Err(f) => Err(f),
            Ok(ingredients) => match required_field::<LuaNumber>(unit, "time"@) {
                Err(f) => Err(f),
                Ok(time) => Ok(UnitModel { count, ingredients, time }),
            },
        },
    }
}

/// What the conversion of `value` to a technology gives. The name, the type and the
/// unit are needed; effects and prerequisites are empty where the table has none, and
/// must convert where it has them. Failures come in this order: name, type, effects,
/// prerequisites, unit; those inside the unit stand under `unit`.
pub open spec fn decoded_technology(value: Value) -> Result<TechnologyModel, Failure> {
    match value {
        Value::Table(entries) => match required_field::<String>(entries, "name"@) {
            Err(f) => Err(f),
            Ok(name) => match required_field::<String>(entries, "type"@) {
                Err(f) => Err(f),
                Ok(type_) => match present_field::<Vec<LuaObject>>(
                    entries,
                    "effects"@,
                    Seq::empty(),
                ) {
                    Err(f) => Err(f),
                    Ok(effects) => match present_field::<Vec<String>>(
                        entries,
                        "prerequisites"@,
                        Seq::empty(),
                    ) {
                        Err(f) => Err(f),
                        Ok(prerequisites) => match entries.get("unit"@) {
                            None => Err(
                                Failure::here(DecodeErrorKind::MissingKey).under(
                                    Step::Key("unit"@),
                                ),
                            ),
                            Some(Value::Table(unit)) => match decoded_unit(unit) {
                                Err(f) => Err(f.under(Step::Key("unit"@))),
                                Ok(u) => Ok(
                                    TechnologyModel {
                                        name,
                                        type_,
                                        effects,
                                        prerequisites,
                                        ingredient_count: u.count,
                                        ingredients: u.ingredients,
                                        ingredient_time: u.time,
                                    },
                                ),
                            },
                            Some(_) => Err(
                                Failure::here(DecodeErrorKind::NotATable).under(
                                    Step::Key("unit"@),
                                ),
                            ),
                        },
                    },
                },
            },
        },
        _ => Err(Failure::here(DecodeErrorKind::NotATable)),
    }
}

/// What converting a unit returned, as mathematical values.
pub open spec fn unit_outcome(
    r: Result<(LuaObject, Vec<Ingredient>, LuaNumber), DecodeError>,
) -> Result<UnitModel, Failure> {
    match r {
        Ok(u) => Ok(
            UnitModel { count: u.0@, ingredients: u.1.deep_view(), time: u.2.deep_view() },
        ),
        Err(e) => Err(e.deep_view()),
    }
}

/// Converts the table under `unit`.
fn decode_unit(unit: &Dict<LuaObject>) -> (r: Result<
    (LuaObject, Vec<Ingredient>, LuaNumber),
    DecodeError,
>)
    ensures
        unit_outcome(r) == decoded_unit(unit.deep_view()),
{
    let count = match unit.get("count") {
        Some(v) => v.duplicate(),
        None => match required::<LuaObject>(unit, "count_formula") {
            Ok(v) => v,
            Err(e) => {
                return Err(e);
            },
        },
    };
    let ingredients = match required::<Vec<Ingredient>>(unit, "ingredients") {
        Ok(x) => x,
        Err(e) => {
            return Err(e);
        },
    };
    let time = match required::<LuaNumber>(unit, "time") {
        Ok(x) => x,
        Err(e) => {
            return Err(e);
        },
    };
    Ok((count, ingredients, time))
}

impl Decode for Technology {
    open spec fn decoded(value: Value) -> Result<TechnologyModel, Failure> {
        decoded_technology(value)
    }

    fn decode(value: &LuaObject) -> (r: Result<Technology, DecodeError>) {
        let table = match value {
            LuaObject::Table(table) => table,
            _ => {
                return Err(DecodeError::here(DecodeErrorKind::NotATable));
            },
        };
        proof {
            lemma_table_view(*table);
        }
        let name = match required::<String>(table, "name") {
            Ok(x) => x,
            Err(e) => {
                return Err(e);
            },
        };
        let type_ = match required::<String>(table, "type") {
            Ok(x) => x,
            Err(e) => {
                return Err(e);
            },
        };
        let no_effects: Vec<LuaObject> = Vec::new();
        assert(no_effects.deep_view() =~= Seq::empty());
        let effects = match present::<Vec<LuaObject>>(table, "effects", no_effects) {
            Ok(x) => x,
            Err(e) => {
                return Err(e);
            },
        };
        let none: Vec<String> = Vec::new();
        assert(none.deep_view() =~= Seq::empty());
        let prerequisites = match present::<Vec<String>>(table, "prerequisites", none) {
            Ok(x) => x,
            Err(e) => {
                return Err(e);
            },
        };
        let unit = match table.get("unit") {
            None => {
                return Err(
                    DecodeError::here(DecodeErrorKind::MissingKey).under(
                        PathStep::Key("unit".to_owned()),
                    ),
                );
            },
            Some(LuaObject::Table(unit)) => {
                proof {
                    lemma_table_view(*unit);
                }
                unit
            },
            Some(_) => {
                return Err(
                    DecodeError::here(DecodeErrorKind::NotATable).under(
                        PathStep::Key("unit".to_owned()),
                    ),
                );
            },
        };
        match decode_unit(unit) {
            Ok(u) => Ok(
                Technology {
                    name,
                    type_,
                    effects,
                    prerequisites,
                    ingredient_count: u.0,
                    ingredients: u.1,
                    ingredient_time: u.2,
                },
            ),
            Err(e) => Err(e.under(PathStep::Key("unit".to_owned()))),
        }
    }
}

} // verus!
