use crate::decode::{
    lemma_table_view, optional, optional_field, outcome, present, present_field, required,
    required_field, Decode,
    DecodeError, DecodeErrorKind, Failure, LuaNumber, Number, PathStep, Step,
};
use crate::dict::Dict;
use crate::model::{
    lemma_lookup_after_binding, lemma_position_of, lookup, mapping, with_entry, Entries, Text,
    Value,
};
use crate::tree::LuaObject;
use vstd::prelude::*;

verus! {

/// A product and how many of it.
#[derive(Debug, Clone, PartialEq, Eq)]
pub struct Ingredient {
    pub name: String,
    pub amount: i64,
    pub type_: String,
}

/// The mathematical value of an `Ingredient`.
pub struct IngredientModel {
    pub name: Text,
    pub amount: i64,
    pub type_: Text,
}

impl DeepView for Ingredient {
    type V = IngredientModel;

    open spec fn deep_view(&self) -> IngredientModel {
        IngredientModel { name: self.name@, amount: self.amount, type_: self.type_@ }
    }
}

/// What turns which ingredients into which results, and how long that takes.
#[derive(Debug, Clone, PartialEq, Eq)]
pub struct Recipe {
    pub name: String,
    pub category: String,
    pub enabled: bool,
    pub ingredients: Vec<Ingredient>,
    /// The time one run takes; the products per second are its inverse.
    pub energy_required: LuaNumber,
    pub results: Vec<Ingredient>,
}

/// The mathematical value of a `Recipe`.
pub struct RecipeModel {
    pub name: Text,
    pub category: Text,
    pub enabled: bool,
    pub ingredients: Seq<IngredientModel>,
    pub energy_required: Number,
    pub results: Seq<IngredientModel>,
}

impl DeepView for Recipe {
    type V = RecipeModel;

    open spec fn deep_view(&self) -> RecipeModel {
        RecipeModel {
            name: self.name@,
            category: self.category@,
            enabled: self.enabled,
            ingredients: self.ingredients.deep_view(),
            energy_required: self.energy_required.deep_view(),
            results: self.results.deep_view(),
        }
    }
}

/// Why a field could not be taken: the table has no such key, or the value under it does
/// not convert.
#[derive(Debug, Clone, PartialEq, Eq)]
pub enum FieldError {
    Missing,
    Malformed(DecodeError),
}

/// The mathematical value of a `FieldError`.
pub enum FieldFailure {
    Missing,
    Malformed(Failure),
}

impl DeepView for FieldError {
    type V = FieldFailure;

    open spec fn deep_view(&self) -> FieldFailure {
        match self {
            FieldError::Missing => FieldFailure::Missing,
            FieldError::Malformed(e) => FieldFailure::Malformed(e.deep_view()),
        }
    }
}

/// What taking the field `key` out of `entries` gives.
pub open spec fn taken_field<T: Decode>(entries: Map<Text, Value>, key: Text) -> Result<
    T::V,
    FieldFailure,
> {
    if entries.contains_key(key) {
        match T::decoded(entries[key]) {
            Ok(x) => Ok(x),
            Err(f) => Err(FieldFailure::Malformed(f.under(Step::Key(key)))),
        }
    } else {
        Err(FieldFailure::Missing)
    }
}

pub trait ConversionExt {
    type Index: ?Sized;

    /// Takes the entry under `index` out and converts its value.
    fn field<T: Decode>(&mut self, index: &Self::Index) -> Result<T, FieldError>;
}

impl ConversionExt for Dict<LuaObject> {
    type Index = str;

    fn field<T: Decode>(&mut self, index: &str) -> (r: Result<T, FieldError>)
        ensures
            final(self).deep_view() == old(self).deep_view().remove(index@),
            match r {
                Ok(x) => Ok(x.deep_view()),
                Err(e) => Err(e.deep_view()),
            } == taken_field::<T>(old(self).deep_view(), index@),
    {
        match self.remove_entry(index) {
            None => Err(FieldError::Missing),
            Some(entry) => match T::decode(&entry.1) {
                Ok(x) => Ok(x),
                Err(e) => Err(FieldError::Malformed(e.under(PathStep::Key(entry.0)))),
            },
        }
    }
}

/// What the conversion of `value` to an ingredient gives: a pair of a name and an amount
/// is an item; a table has a name, and an amount and a type where it gives them.
pub open spec fn decoded_ingredient(value: Value) -> Result<IngredientModel, Failure> {
    match <(String, i64)>::decoded(value) {
        Ok(pair) => Ok(IngredientModel { name: pair.0, amount: pair.1, type_: "item"@ }),
        Err(_) => match value {
            Value::Table(entries) => match required_field::<String>(entries, "name"@) {
                Err(f) => Err(f),
                Ok(name) => Ok(
                    IngredientModel {
                        name,
                        amount: optional_field::<i64>(entries, "amount"@, 1),
                        type_: optional_field::<String>(entries, "type"@, "item"@),
                    },
                ),
            },
            _ => Err(Failure::here(DecodeErrorKind::NoShapeFits)),
        },
    }
}

impl Decode for Ingredient {
    open spec fn decoded(value: Value) -> Result<IngredientModel, Failure> {
        decoded_ingredient(value)
    }

    fn decode(value: &LuaObject) -> (r: Result<Ingredient, DecodeError>) {
        match <(String, i64)>::decode(value) {
            Ok(pair) => Ok(Ingredient { name: pair.0, amount: pair.1, type_: "item".to_owned() }),
            Err(_) => match value {
                LuaObject::Table(table) => {
                    proof {
                        lemma_table_view(*table);
                    }
                    let name = match required::<String>(table, "name") {
                        Ok(x) => x,
                        Err(e) => {
                            return Err(e);
                        },
                    };
                    let amount = optional::<i64>(table, "amount", 1);
                    let type_ = optional::<String>(table, "type", "item".to_owned());
                    Ok(Ingredient { name, amount, type_ })
                },
                _ => Err(DecodeError::here(DecodeErrorKind::NoShapeFits)),
            },
        }
    }
}

/// The table that holds a recipe's results, ingredients and times: the one under
/// `normal` where there is one, else the recipe's own.
pub open spec fn recipe_body(entries: Map<Text, Value>) -> Map<Text, Value> {
    if entries.contains_key("normal"@) {
        match entries["normal"@] {
            Value::Table(inner) => inner,
            _ => entries,
        }
    } else {
        entries
    }
}

/// A recipe's results: the list under `results`; without it the one item under `result`,
/// `result_count` times, or once.
pub open spec fn decoded_results(body: Map<Text, Value>) -> Result<
    Seq<IngredientModel>,
    Failure,
> {
    if body.contains_key("results"@) {
        required_field::<Vec<Ingredient>>(body, "results"@)
    } else {
        match required_field::<String>(body, "result"@) {
            Err(f) => Err(f),
            Ok(name) => match present_field::<i64>(body, "result_count"@, 1) {
                Err(f) => Err(f),
                Ok(amount) => Ok(seq![IngredientModel { name, amount, type_: "item"@ }]),
            },
        }
    }
}

/// What the conversion of `value` to a recipe gives. The name, the results and the
/// ingredients are needed, and fail in that order; the category is `crafting`, the
/// recipe enabled and the time 1 where the table does not say.
pub open spec fn decoded_recipe(value: Value) -> Result<RecipeModel, Failure> {
    match value {
        Value::Table(entries) => match required_field::<String>(entries, "name"@) {
            Err(f) => Err(f),
            Ok(name) => {
                let body = recipe_body(entries);
                match decoded_results(body) {
                    Err(f) => Err(f),
                    Ok(results) => match required_field::<Vec<Ingredient>>(body, "ingredients"@) {
                        Err(f) => Err(f),
                        Ok(ingredients) => Ok(
                            RecipeModel {
                                name,
                                category: optional_field::<String>(
                                    entries,
                                    "category"@,
                                    "crafting"@,
                                ),
                                enabled: optional_field::<bool>(body, "enabled"@, true),
                                ingredients,
                                energy_required: optional_field::<LuaNumber>(
                                    body,
                                    "energy_required"@,
                                    Number::Int(1),
                                ),
                                results,
                            },
                        ),
                    },
                }
            },
        },
        _ => Err(Failure::here(DecodeErrorKind::NotATable)),
    }
}

/// Converts the results that `body` holds.
fn decode_results(body: &Dict<LuaObject>) -> (r: Result<Vec<Ingredient>, DecodeError>)
    ensures
        outcome(r) == decoded_results(body.deep_view()),
{
    if body.find("results").is_some() {
        return required::<Vec<Ingredient>>(body, "results");
    }
    let name = match required::<String>(body, "result") {
        Ok(x) => x,
        Err(e) => {
            return Err(e);
        },
    };
    let amount = match present::<i64>(body, "result_count", 1) {
        Ok(x) => x,
        Err(e) => {
            return Err(e);
        },
    };
    let mut results: Vec<Ingredient> = Vec::new();
    results.push(Ingredient { name, amount, type_: "item".to_owned() });
    assert(results.deep_view() =~= seq![
        IngredientModel { name: name@, amount, type_: "item"@ },
    ]);
    Ok(results)
}

/// The table that holds the recipe's results, ingredients and times.
fn body_of(table: &Dict<LuaObject>) -> (body: &Dict<LuaObject>)
    ensures
        body.deep_view() == recipe_body(table.deep_view()),
{
    match table.get("normal") {
        Some(LuaObject::Table(inner)) => {
            proof {
                lemma_table_view(*inner);
            }
            inner
        },
        _ => table,
    }
}

impl Decode for Recipe {
    open spec fn decoded(value: Value) -> Result<RecipeModel, Failure> {
        decoded_recipe(value)
    }

    fn decode(value: &LuaObject) -> (r: Result<Recipe, DecodeError>) {
        match value {
            LuaObject::Table(table) => {
                proof {
                    lemma_table_view(*table);
                }
                let name = match required::<String>(table, "name") {
                    Ok(x) => x,
                    Err(e) => {
                        return Err(e);
                    },
                };
                let category = optional::<String>(table, "category", "crafting".to_owned());
                let body = body_of(table);
                let results = match decode_results(body) {
                    Ok(x) => x,
                    Err(e) => {
                        return Err(e);
                    },
                };
                let enabled = optional::<bool>(body, "enabled", true);
                let energy_required = optional::<LuaNumber>(
                    body,
                    "energy_required",
                    LuaNumber::Int(1),
                );
                let ingredients = match required::<Vec<Ingredient>>(body, "ingredients") {
                    Ok(x) => x,
                    Err(e) => {
                        return Err(e);
                    },
                };
                Ok(Recipe { name, category, enabled, ingredients, energy_required, results })
            },
            _ => Err(DecodeError::here(DecodeErrorKind::NotATable)),
        }
    }
}

impl Ingredient {
    /// A copy of this ingredient.
    pub fn duplicate(&self) -> (r: Ingredient)
        ensures
            r.deep_view() == self.deep_view(),
    {
        Ingredient { name: self.name.clone(), amount: self.amount, type_: self.type_.clone() }
    }
}

/// A copy of a list of ingredients.
fn duplicate_ingredients(list: &Vec<Ingredient>) -> (r: Vec<Ingredient>)
    ensures
        r.deep_view() == list.deep_view(),
{
    let mut out: Vec<Ingredient> = Vec::new();
    let mut i: usize = 0;
    while i < list.len()
        invariant
            i <= list@.len(),
            out@.len() == i,
            forall|j: int| 0 <= j < i ==> (#[trigger] out@[j]).deep_view() == list@[j].deep_view(),
        decreases list@.len() - i,
    {
        out.push(list[i].duplicate());
        i += 1;
    }
    assert(out.deep_view() =~= list.deep_view());
    out
}

impl Recipe {
    /// A copy of this recipe.
    pub fn duplicate(&self) -> (r: Recipe)
        ensures
            r.deep_view() == self.deep_view(),
    {
        let energy_required = match &self.energy_required {
            LuaNumber::Int(i) => LuaNumber::Int(*i),
            LuaNumber::Float(t) => LuaNumber::Float(t.clone()),
        };
        Recipe {
            name: self.name.clone(),
            category: self.category.clone(),
            enabled: self.enabled,
            ingredients: duplicate_ingredients(&self.ingredients),
            energy_required,
            results: duplicate_ingredients(&self.results),
        }
    }
}

/// For each product, the recipes that make it.
#[derive(Debug, PartialEq)]
pub struct RecipeMap(pub Dict<Vec<Recipe>>);

/// `index` with `recipe` filed under `product`: after the recipes that are there, or as
/// the first of a new last product.
pub open spec fn filed(
    index: Entries<Seq<RecipeModel>>,
    product: Text,
    recipe: RecipeModel,
) -> Entries<Seq<RecipeModel>> {
    match lookup(index, product) {
        Some(list) => with_entry(index, product, list.push(recipe)),
        None => with_entry(index, product, seq![recipe]),
    }
}

/// `index` with `recipe` filed under each of its first `n` results, in their order.
pub open spec fn filed_under_results(
    index: Entries<Seq<RecipeModel>>,
    recipe: RecipeModel,
    n: nat,
) -> Entries<Seq<RecipeModel>>
    decreases n,
{
    if n == 0 {
        index
    } else {
        filed(
            filed_under_results(index, recipe, (n - 1) as nat),
            recipe.results[n - 1].name,
            recipe,
        )
    }
}

/// The first `n` of `recipes`, each filed under all of its results, in their order.
pub open spec fn indexed(recipes: Seq<RecipeModel>, n: nat) -> Entries<Seq<RecipeModel>>
    decreases n,
{
    if n == 0 {
        Seq::empty()
    } else {
        filed_under_results(
            indexed(recipes, (n - 1) as nat),
            recipes[n - 1],
            recipes[n - 1].results.len(),
        )
    }
}

/// `recipe` lists a result named `name`.
pub open spec fn makes(recipe: RecipeModel, name: Text) -> bool {
    exists|j: int| 0 <= j < recipe.results.len() && (#[trigger] recipe.results[j]).name == name
}

/// `recipe` once for each of its first `n` results that is named `name`.
pub open spec fn listings(recipe: RecipeModel, name: Text, n: nat) -> Seq<RecipeModel>
    decreases n,
{
    if n == 0 {
        Seq::empty()
    } else if recipe.results[n - 1].name == name {
        listings(recipe, name, (n - 1) as nat).push(recipe)
    } else {
        listings(recipe, name, (n - 1) as nat)
    }
}

/// Of the first `n` recipes those that make `name`, in their order, each once for each
/// of its results of that name.
pub open spec fn makers(recipes: Seq<RecipeModel>, name: Text, n: nat) -> Seq<RecipeModel>
    decreases n,
{
    if n == 0 {
        Seq::empty()
    } else {
        makers(recipes, name, (n - 1) as nat) + listings(
            recipes[n - 1],
            name,
            recipes[n - 1].results.len(),
        )
    }
}

/// For each product that some recipe makes, the recipes that make it: a product has an
/// entry exactly when a recipe lists a result of its name, and the entry holds those
/// recipes in their order.
pub open spec fn made_by(recipes: Seq<RecipeModel>) -> Map<Text, Seq<RecipeModel>> {
    Map::new(
        |name: Text| exists|i: int| 0 <= i < recipes.len() && makes(#[trigger] recipes[i], name),
        |name: Text| makers(recipes, name, recipes.len()),
    )
}

/// The list under a name, if it is not empty.
pub open spec fn entry_of(list: Seq<RecipeModel>) -> Option<Seq<RecipeModel>> {
    if list.len() > 0 {
        Some(list)
    } else {
        None
    }
}

/// A recipe is listed at least once under a name exactly when it makes it.
pub proof fn lemma_listings(recipe: RecipeModel, name: Text, n: nat)
    requires
        n <= recipe.results.len(),
    ensures
        listings(recipe, name, n).len() > 0 <==> exists|j: int|
            0 <= j < n && (#[trigger] recipe.results[j]).name == name,
    decreases n,
{
    if n > 0 {
        lemma_listings(recipe, name, (n - 1) as nat);
        if recipe.results[n - 1].name != name {
            if exists|j: int| 0 <= j < n && (#[trigger] recipe.results[j]).name == name {
                let j = choose|j: int| 0 <= j < n && (#[trigger] recipe.results[j]).name == name;
                assert(j < n - 1);
            }
        }
    }
}

/// A name has makers among the first `n` recipes exactly when one of them makes it.
pub proof fn lemma_makers(recipes: Seq<RecipeModel>, name: Text, n: nat)
    requires
        n <= recipes.len(),
    ensures
        makers(recipes, name, n).len() > 0 <==> exists|i: int|
            0 <= i < n && makes(#[trigger] recipes[i], name),
    decreases n,
{
    if n > 0 {
        lemma_makers(recipes, name, (n - 1) as nat);
        let last = recipes[n - 1];
        lemma_listings(last, name, last.results.len());
        if makes(last, name) {
            assert(listings(last, name, last.results.len()).len() > 0);
        } else {
            if exists|i: int| 0 <= i < n && makes(#[trigger] recipes[i], name) {
                let i = choose|i: int| 0 <= i < n && makes(#[trigger] recipes[i], name);
                assert(i < n - 1);
            }
        }
    }
}

/// Filing a recipe under each of its results adds it to the list of each name once for
/// each result of that name, and leaves the other lists as they are.
pub proof fn lemma_filed_under_results(
    index: Entries<Seq<RecipeModel>>,
    recipe: RecipeModel,
    n: nat,
    name: Text,
    list: Seq<RecipeModel>,
)
    requires
        lookup(index, name) == entry_of(list),
    ensures
        lookup(filed_under_results(index, recipe, n), name) == entry_of(
            list + listings(recipe, name, n),
        ),
    decreases n,
{
    if n == 0 {
        assert(list + listings(recipe, name, 0) =~= list);
    } else {
        let before = filed_under_results(index, recipe, (n - 1) as nat);
        let had = list + listings(recipe, name, (n - 1) as nat);
        lemma_filed_under_results(index, recipe, (n - 1) as nat, name, list);
        let product = recipe.results[n - 1].name;
        match lookup(before, product) {
            Some(l) => {
                lemma_lookup_after_binding(before, product, l.push(recipe), name);
            },
            None => {
                lemma_lookup_after_binding(before, product, seq![recipe], name);
            },
        }
        if product == name {
            assert(list + listings(recipe, name, n) =~= had.push(recipe));
            assert(seq![recipe] =~= had.push(recipe) || had.len() > 0);
        } else {
            assert(list + listings(recipe, name, n) =~= had);
        }
    }
}

/// What the grouping holds under each name: the recipes that make it, in their order,
/// each once for each of its results of that name; and nothing under a name that no
/// recipe makes. No list is empty.
pub proof fn lemma_indexed(recipes: Seq<RecipeModel>, n: nat, name: Text)
    requires
        n <= recipes.len(),
    ensures
        lookup(indexed(recipes, n), name) == entry_of(makers(recipes, name, n)),
    decreases n,
{
    if n == 0 {
        lemma_position_of(indexed(recipes, 0), name);
    } else {
        lemma_indexed(recipes, (n - 1) as nat, name);
        lemma_filed_under_results(
            indexed(recipes, (n - 1) as nat),
            recipes[n - 1],
            recipes[n - 1].results.len(),
            name,
            makers(recipes, name, (n - 1) as nat),
        );
    }
}

/// The grouping, entry by entry, stands for the mapping from each product to the
/// recipes that make it.
pub proof fn lemma_grouping(recipes: Seq<RecipeModel>)
    ensures
        mapping(indexed(recipes, recipes.len())) == made_by(recipes),
        forall|name: Text| #[trigger]
            made_by(recipes).contains_key(name) ==> made_by(recipes)[name].len() > 0,
{
    let a = mapping(indexed(recipes, recipes.len()));
    let b = made_by(recipes);
    assert forall|name: Text| #[trigger] a.contains_key(name) == b.contains_key(name) && (
    b.contains_key(name) ==> a[name] == b[name] && b[name].len() > 0) by {
        lemma_indexed(recipes, recipes.len(), name);
        lemma_makers(recipes, name, recipes.len());
    }
    assert(a =~= b);
}

impl RecipeMap {
    /// Files `recipe` under `product`.
    fn file(index: &mut Dict<Vec<Recipe>>, product: &String, recipe: &Recipe)
        ensures
            final(index).listed() == filed(old(index).listed(), product@, recipe.deep_view()),
    {
        let ghost before = index.listed();
        match index.find(product.as_str()) {
            Some(i) => {
                proof {
                    lemma_position_of(before, product@);
                }
                let entry = index.entries.remove(i);
                let ghost list = entry.1.deep_view();
                let mut recipes = entry.1;
                recipes.push(recipe.duplicate());
                assert(recipes.deep_view() =~= list.push(recipe.deep_view()));
                index.entries.insert(i, (entry.0, recipes));
                assert(index.listed() =~= before.update(
                    i as int,
                    (product@, list.push(recipe.deep_view())),
                ));
            },
            None => {
                let mut recipes: Vec<Recipe> = Vec::new();
                recipes.push(recipe.duplicate());
                assert(recipes.deep_view() =~= seq![recipe.deep_view()]);
                index.entries.push((product.clone(), recipes));
                assert(index.listed() =~= before.push((product@, seq![recipe.deep_view()])));
            },
        }
    }

    /// Groups `recipes` by what they make: each recipe stands under each of its results,
    /// as often as it lists it, the products in the order in which they first came.
    pub fn new(recipes: Vec<Recipe>) -> (map: Self)
        ensures
            map.0.deep_view() == made_by(recipes.deep_view()),
            map.0.listed() == indexed(recipes.deep_view(), recipes.deep_view().len()),
    {
        let mut index: Dict<Vec<Recipe>> = Dict::new();
        let ghost all = recipes.deep_view();
        let mut i: usize = 0;
        while i < recipes.len()
            invariant
                i <= recipes@.len(),
                all == recipes.deep_view(),
                index.listed() == indexed(all, i as nat),
            decreases recipes@.len() - i,
        {
            let recipe = &recipes[i];
            assert(all[i as int] == recipe.deep_view());
            let mut j: usize = 0;
            while j < recipe.results.len()
                invariant
                    j <= recipe.results@.len(),
                    recipe.results.deep_view() == recipe.deep_view().results,
                    index.listed() == filed_under_results(
                        indexed(all, i as nat),
                        recipe.deep_view(),
                        j as nat,
                    ),
                decreases recipe.results@.len() - j,
            {
                assert(recipe.deep_view().results[j as int].name
                    == recipe.results@[j as int].name@);
                Self::file(&mut index, &recipe.results[j].name, recipe);
                j += 1;
            }
            i += 1;
        }
        proof {
            lemma_grouping(all);
        }
        RecipeMap(index)
    }
}

} // verus!
