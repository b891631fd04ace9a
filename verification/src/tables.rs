//! The four persisted tables, row by row, exactly as the relational schema
//! lays them out:
//!
//! - `recipes (id INTEGER PRIMARY KEY ASC, name TEXT, desc TEXT)`
//! - `steps (recipe_id INTEGER, text TEXT, PRIMARY KEY (recipe_id, text))`,
//!   cascading on the recipe
//! - `ingredients (id INTEGER PRIMARY KEY ASC, name TEXT NOT NULL UNIQUE)`
//! - `recipe_ingredients (recipe_id, ingredient_id, quantity, unit,
//!   PRIMARY KEY (recipe_id, ingredient_id))`, cascading on both parents

use vstd::prelude::*;

verus! {

/// A row of the `recipes` table: the aggregate root entity.
#[derive(Debug, PartialEq, Clone)]
pub struct RecipeRow {
    pub id: u32,
    pub name: String,
    pub desc: Option<String>,
}

/// A row of the `steps` table; `recipe_id` references `recipes.id`.
#[derive(Debug, PartialEq, Clone)]
pub struct StepRow {
    pub recipe_id: u32,
    pub text: String,
}

/// A row of the `ingredients` catalog; names are globally unique.
#[derive(Debug, PartialEq, Clone)]
pub struct IngredientRow {
    pub id: u32,
    pub name: String,
}

/// A row of the `recipe_ingredients` join table; the quantity and unit belong
/// to this relation, not to the ingredient.
#[derive(Debug, PartialEq, Clone)]
pub struct RecipeIngredientRow {
    pub recipe_id: u32,
    pub ingredient_id: u32,
    pub value_bits: u64,
    pub unit: String,
}

/// Mathematical image of a `RecipeRow`.
#[verifier::ext_equal]
pub ghost struct RecipeRowView {
    pub id: u32,
    pub name: Seq<char>,
    pub desc: Option<Seq<char>>,
}

/// Mathematical image of a `StepRow`.
#[verifier::ext_equal]
pub ghost struct StepRowView {
    pub recipe_id: u32,
    pub text: Seq<char>,
}

/// Mathematical image of an `IngredientRow`.
#[verifier::ext_equal]
pub ghost struct IngredientRowView {
    pub id: u32,
    pub name: Seq<char>,
}

/// Mathematical image of a `RecipeIngredientRow`.
#[verifier::ext_equal]
pub ghost struct RecipeIngredientRowView {
    pub recipe_id: u32,
    pub ingredient_id: u32,
    pub value_bits: u64,
    pub unit: Seq<char>,
}

/// The whole persisted state: the four tables in their natural row order.
#[verifier::ext_equal]
pub ghost struct StoreView {
    pub recipes: Seq<RecipeRowView>,
    pub steps: Seq<StepRowView>,
    pub ingredients: Seq<IngredientRowView>,
    pub recipe_ingredients: Seq<RecipeIngredientRowView>,
}

impl View for RecipeRow {
    type V = RecipeRowView;

    open spec fn view(&self) -> RecipeRowView {
        RecipeRowView { id: self.id, name: self.name@, desc: self.desc.deep_view() }
    }
}

impl DeepView for RecipeRow {
    type V = RecipeRowView;

    open spec fn deep_view(&self) -> RecipeRowView {
        self.view()
    }
}

impl View for StepRow {
    type V = StepRowView;

    open spec fn view(&self) -> StepRowView {
        StepRowView { recipe_id: self.recipe_id, text: self.text@ }
    }
}

impl DeepView for StepRow {
    type V = StepRowView;

    open spec fn deep_view(&self) -> StepRowView {
        self.view()
    }
}

impl View for IngredientRow {
    type V = IngredientRowView;

    open spec fn view(&self) -> IngredientRowView {
        IngredientRowView { id: self.id, name: self.name@ }
    }
}

impl DeepView for IngredientRow {
    type V = IngredientRowView;

    open spec fn deep_view(&self) -> IngredientRowView {
        self.view()
    }
}

impl View for RecipeIngredientRow {
    type V = RecipeIngredientRowView;

    open spec fn view(&self) -> RecipeIngredientRowView {
        RecipeIngredientRowView {
            recipe_id: self.recipe_id,
            ingredient_id: self.ingredient_id,
            value_bits: self.value_bits,
            unit: self.unit@,
        }
    }
}

impl DeepView for RecipeIngredientRow {
    type V = RecipeIngredientRowView;

    open spec fn deep_view(&self) -> RecipeIngredientRowView {
        self.view()
    }
}

} // verus!
