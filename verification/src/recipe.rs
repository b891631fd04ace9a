//! The recipe aggregate as presented at the repository boundary: a name, an
//! optional description, an ordered list of step texts, and a list of
//! ingredient quantities whose names are resolved against a shared catalog.

use vstd::prelude::*;

verus! {

/// A unit-less magnitude paired with a free-text unit, scoped to one
/// recipe-ingredient relationship ("1.0 whole", "2.5 cup").
///
/// The magnitude is carried as the bit pattern of an IEEE 754 double so that
/// the verified core works on a plain integer value; the numeric form lives
/// only at the storage and HTTP boundaries, which convert with `to_bits` /
/// `from_bits`.
#[derive(Debug, PartialEq, Clone)]
pub struct Quantity {
    pub value_bits: u64,
    pub unit: String,
}

/// Pairs an ingredient name with a quantity. The name is resolved against the
/// process-wide ingredient catalog; the quantity belongs to the relation
/// between one recipe and that ingredient, not to the ingredient itself.
#[derive(Debug, PartialEq, Clone)]
pub struct IngredientQuantity {
    pub ingredient: String,
    pub quantity: Quantity,
}

/// The aggregate root. `id` is present only once persisted; storage assigns
/// it, never the client.
#[derive(Debug, PartialEq, Clone)]
pub struct Recipe {
    pub id: Option<u32>,
    pub name: String,
    pub desc: Option<String>,
    pub steps: Vec<String>,
    pub ingredients: Vec<IngredientQuantity>,
}

/// Mathematical image of a `Quantity`.
#[verifier::ext_equal]
pub ghost struct QuantityView {
    pub value_bits: u64,
    pub unit: Seq<char>,
}

/// Mathematical image of an `IngredientQuantity`.
#[verifier::ext_equal]
pub ghost struct IngredientQuantityView {
    pub ingredient: Seq<char>,
    pub quantity: QuantityView,
}

/// Mathematical image of a `Recipe`.
#[verifier::ext_equal]
pub ghost struct RecipeView {
    pub id: Option<u32>,
    pub name: Seq<char>,
    pub desc: Option<Seq<char>>,
    pub steps: Seq<Seq<char>>,
    pub ingredients: Seq<IngredientQuantityView>,
}

impl View for Quantity {
    type V = QuantityView;

    open spec fn view(&self) -> QuantityView {
        QuantityView { value_bits: self.value_bits, unit: self.unit@ }
    }
}

impl DeepView for Quantity {
    type V = QuantityView;

    open spec fn deep_view(&self) -> QuantityView {
        self.view()
    }
}

impl View for IngredientQuantity {
    type V = IngredientQuantityView;

    open spec fn view(&self) -> IngredientQuantityView {
        IngredientQuantityView { ingredient: self.ingredient@, quantity: self.quantity@ }
    }
}

impl DeepView for IngredientQuantity {
    type V = IngredientQuantityView;

    open spec fn deep_view(&self) -> IngredientQuantityView {
        self.view()
    }
}

impl View for Recipe {
    type V = RecipeView;

    open spec fn view(&self) -> RecipeView {
        RecipeView {
            id: self.id,
            name: self.name@,
            desc: self.desc.deep_view(),
            steps: self.steps.deep_view(),
            ingredients: self.ingredients.deep_view(),
        }
    }
}

impl DeepView for Recipe {
    type V = RecipeView;

    open spec fn deep_view(&self) -> RecipeView {
        self.view()
    }
}

/// No two entries of `xs` are the same text.
pub open spec fn distinct_texts(xs: Seq<Seq<char>>) -> bool {
    forall|i: int, j: int| 0 <= i < j < xs.len() ==> xs[i] !== xs[j]
}

/// No two entries reference the same ingredient name.
pub open spec fn distinct_ingredient_names(iqs: Seq<IngredientQuantityView>) -> bool {
    forall|i: int, j: int| 0 <= i < j < iqs.len() ==> iqs[i].ingredient !== iqs[j].ingredient
}

/// A recipe the composite keys of the schema can hold: no repeated step text
/// within the recipe, and no ingredient referenced twice.
pub open spec fn recipe_valid(r: RecipeView) -> bool {
    &&& distinct_texts(r.steps)
    &&& distinct_ingredient_names(r.ingredients)
}

} // verus!
