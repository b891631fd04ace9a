//! The mathematical model of the store: what each table holds, what the
//! schema's keys and foreign keys demand of it, and what each repository
//! operation does to it, table by table.
//!
//! Row order matters throughout: the schema persists no sequence column, so
//! read-back order is the natural row order, which these definitions keep
//! (filters preserve order, inserts append).

use vstd::prelude::*;

use crate::recipe::{IngredientQuantityView, QuantityView, RecipeView};
use crate::tables::{
    IngredientRowView, RecipeIngredientRowView, RecipeRowView, StepRowView, StoreView,
};

verus! {

// ---------------------------------------------------------------------------
// recipes table
// ---------------------------------------------------------------------------

/// Some row of the recipes table carries this id.
pub open spec fn has_recipe_id(rows: Seq<RecipeRowView>, rid: u32) -> bool {
    exists|i: int| 0 <= i < rows.len() && rows[i].id == rid
}

/// The largest id in the recipes table, 0 when it is empty.
pub open spec fn max_recipe_id(rows: Seq<RecipeRowView>) -> int
    decreases rows.len(),
{
    if rows.len() == 0 {
        0
    } else {
        let m = max_recipe_id(rows.drop_last());
        if rows.last().id as int > m {
            rows.last().id as int
        } else {
            m
        }
    }
}

/// The id storage assigns to the next inserted recipe: one past the largest
/// id present, as `INTEGER PRIMARY KEY ASC` assigns row ids.
pub open spec fn fresh_recipe_id(s: StoreView) -> int {
    max_recipe_id(s.recipes) + 1
}

/// Every row whose id matches gets the new name and description; the rest,
/// and all row positions, stay as they were.
pub open spec fn recipes_updated(
    rows: Seq<RecipeRowView>,
    rid: u32,
    name: Seq<char>,
    desc: Option<Seq<char>>,
) -> Seq<RecipeRowView> {
    rows.map_values(
        |row: RecipeRowView|
            if row.id == rid {
                RecipeRowView { id: rid, name: name, desc: desc }
            } else {
                row
            },
    )
}

/// The recipes table with every row of the given id removed, order kept.
pub open spec fn recipes_without(rows: Seq<RecipeRowView>, rid: int) -> Seq<RecipeRowView>
    decreases rows.len(),
{
    if rows.len() == 0 {
        rows
    } else {
        let rest = recipes_without(rows.drop_last(), rid);
        if rows.last().id as int == rid {
            rest
        } else {
            rest.push(rows.last())
        }
    }
}

// ---------------------------------------------------------------------------
// steps table
// ---------------------------------------------------------------------------

/// The step texts of one recipe, in table order.
pub open spec fn steps_texts_of(rows: Seq<StepRowView>, rid: int) -> Seq<Seq<char>>
    decreases rows.len(),
{
    if rows.len() == 0 {
        Seq::empty()
    } else {
        let rest = steps_texts_of(rows.drop_last(), rid);
        if rows.last().recipe_id as int == rid {
            rest.push(rows.last().text)
        } else {
            rest
        }
    }
}

/// The steps table with every row of the given recipe removed, order kept.
pub open spec fn steps_without(rows: Seq<StepRowView>, rid: int) -> Seq<StepRowView>
    decreases rows.len(),
{
    if rows.len() == 0 {
        rows
    } else {
        let rest = steps_without(rows.drop_last(), rid);
        if rows.last().recipe_id as int == rid {
            rest
        } else {
            rest.push(rows.last())
        }
    }
}

/// The step rows one insert pass writes for a recipe, in caller order.
pub open spec fn step_rows_for(rid: u32, texts: Seq<Seq<char>>) -> Seq<StepRowView> {
    texts.map_values(|t: Seq<char>| StepRowView { recipe_id: rid, text: t })
}

// ---------------------------------------------------------------------------
// ingredient catalog
// ---------------------------------------------------------------------------

/// Some catalog row carries this name.
pub open spec fn catalog_has(rows: Seq<IngredientRowView>, name: Seq<char>) -> bool {
    exists|i: int| 0 <= i < rows.len() && rows[i].name == name
}

/// Some catalog row carries this id.
pub open spec fn catalog_has_id(rows: Seq<IngredientRowView>, iid: u32) -> bool {
    exists|i: int| 0 <= i < rows.len() && rows[i].id == iid
}

/// The id a name resolves to. Meaningful only when the name is present;
/// under `catalog_wf` at most one row can match.
pub open spec fn catalog_id_of(rows: Seq<IngredientRowView>, name: Seq<char>) -> u32
    decreases rows.len(),
{
    if rows.len() == 0 {
        0
    } else if rows.last().name == name {
        rows.last().id
    } else {
        catalog_id_of(rows.drop_last(), name)
    }
}

/// The name a catalog id denotes. Catalog rows are never deleted, so under
/// `catalog_wf` id `k` sits at position `k - 1`.
pub open spec fn catalog_name_of(rows: Seq<IngredientRowView>, iid: u32) -> Seq<char> {
    rows[iid as int - 1].name
}

/// Lazy insertion of one name: already present, the catalog is untouched;
/// otherwise a row with the next id is appended.
pub open spec fn catalog_add(rows: Seq<IngredientRowView>, name: Seq<char>) -> Seq<
    IngredientRowView,
> {
    if catalog_has(rows, name) {
        rows
    } else {
        rows.push(IngredientRowView { id: (rows.len() + 1) as u32, name: name })
    }
}

/// The catalog after one write pass resolved every referenced name, in
/// caller order.
pub open spec fn catalog_after(
    rows: Seq<IngredientRowView>,
    iqs: Seq<IngredientQuantityView>,
) -> Seq<IngredientRowView>
    decreases iqs.len(),
{
    if iqs.len() == 0 {
        rows
    } else {
        catalog_add(catalog_after(rows, iqs.drop_last()), iqs.last().ingredient)
    }
}

// ---------------------------------------------------------------------------
// recipe_ingredients join table
// ---------------------------------------------------------------------------

/// The join rows of one recipe, in table order.
pub open spec fn ri_of(rows: Seq<RecipeIngredientRowView>, rid: int) -> Seq<
    RecipeIngredientRowView,
>
    decreases rows.len(),
{
    if rows.len() == 0 {
        rows
    } else {
        let rest = ri_of(rows.drop_last(), rid);
        if rows.last().recipe_id as int == rid {
            rest.push(rows.last())
        } else {
            rest
        }
    }
}

/// The join table with every row of the given recipe removed, order kept.
pub open spec fn ri_without(rows: Seq<RecipeIngredientRowView>, rid: int) -> Seq<
    RecipeIngredientRowView,
>
    decreases rows.len(),
{
    if rows.len() == 0 {
        rows
    } else {
        let rest = ri_without(rows.drop_last(), rid);
        if rows.last().recipe_id as int == rid {
            rest
        } else {
            rest.push(rows.last())
        }
    }
}

/// The join rows one insert pass writes for a recipe, each referencing the
/// id its ingredient name resolves to in the given catalog.
pub open spec fn ri_rows_for(
    rid: u32,
    catalog: Seq<IngredientRowView>,
    iqs: Seq<IngredientQuantityView>,
) -> Seq<RecipeIngredientRowView> {
    iqs.map_values(
        |iq: IngredientQuantityView|
            RecipeIngredientRowView {
                recipe_id: rid,
                ingredient_id: catalog_id_of(catalog, iq.ingredient),
                value_bits: iq.quantity.value_bits,
                unit: iq.quantity.unit,
            },
    )
}

// ---------------------------------------------------------------------------
// read assembly
// ---------------------------------------------------------------------------

/// The ingredient quantities one recipe's join rows describe, names
/// recovered through the catalog join, in table order.
pub open spec fn iqs_from(
    rows: Seq<RecipeIngredientRowView>,
    catalog: Seq<IngredientRowView>,
    rid: int,
) -> Seq<IngredientQuantityView> {
    ri_of(rows, rid).map_values(
        |row: RecipeIngredientRowView|
            IngredientQuantityView {
                ingredient: catalog_name_of(catalog, row.ingredient_id),
                quantity: QuantityView { value_bits: row.value_bits, unit: row.unit },
            },
    )
}

/// The ingredient quantities of one recipe, names recovered through the
/// catalog join, in table order.
pub open spec fn iqs_of(s: StoreView, rid: int) -> Seq<IngredientQuantityView> {
    iqs_from(s.recipe_ingredients, s.ingredients, rid)
}

/// The aggregate as a read returns it once persisted: the same fields under
/// the storage-assigned id.
pub open spec fn with_assigned_id(r: RecipeView, id: u32) -> RecipeView {
    RecipeView {
        id: Some(id),
        name: r.name,
        desc: r.desc,
        steps: r.steps,
        ingredients: r.ingredients,
    }
}

/// One recipes row reassembled into the full aggregate.
pub open spec fn assemble_recipe(s: StoreView, row: RecipeRowView) -> RecipeView {
    RecipeView {
        id: Some(row.id),
        name: row.name,
        desc: row.desc,
        steps: steps_texts_of(s.steps, row.id as int),
        ingredients: iqs_of(s, row.id as int),
    }
}

/// Everything a full read returns: every recipes row, reassembled, in table
/// order.
pub open spec fn assembled(s: StoreView) -> Seq<RecipeView> {
    s.recipes.map_values(|row: RecipeRowView| assemble_recipe(s, row))
}

// ---------------------------------------------------------------------------
// well-formedness: what the schema's constraints guarantee of the tables
// ---------------------------------------------------------------------------

/// `recipes`: primary-key ids, unique and positive.
pub open spec fn recipes_wf(rows: Seq<RecipeRowView>) -> bool {
    &&& forall|i: int, j: int| 0 <= i < j < rows.len() ==> rows[i].id != rows[j].id
    &&& forall|i: int| 0 <= i < rows.len() ==> rows[i].id >= 1
}

/// `ingredients`: rows are never deleted, so id `k` sits at position `k - 1`;
/// names are globally unique.
pub open spec fn catalog_wf(rows: Seq<IngredientRowView>) -> bool {
    &&& forall|i: int| 0 <= i < rows.len() ==> rows[i].id as int == i + 1
    &&& forall|i: int, j: int| 0 <= i < j < rows.len() ==> rows[i].name !== rows[j].name
}

/// `steps`: composite primary key `(recipe_id, text)`, and every row's
/// recipe exists (foreign key).
pub open spec fn steps_wf(rows: Seq<StepRowView>, recipes: Seq<RecipeRowView>) -> bool {
    &&& forall|i: int| 0 <= i < rows.len() ==> has_recipe_id(recipes, rows[i].recipe_id)
    &&& forall|i: int, j: int|
        0 <= i < j < rows.len() ==> !(rows[i].recipe_id == rows[j].recipe_id && rows[i].text
            == rows[j].text)
}

/// `recipe_ingredients`: composite primary key `(recipe_id, ingredient_id)`,
/// and both foreign keys resolve.
pub open spec fn ri_wf(
    rows: Seq<RecipeIngredientRowView>,
    recipes: Seq<RecipeRowView>,
    catalog: Seq<IngredientRowView>,
) -> bool {
    &&& forall|i: int| 0 <= i < rows.len() ==> has_recipe_id(recipes, rows[i].recipe_id)
    &&& forall|i: int| 0 <= i < rows.len() ==> catalog_has_id(catalog, rows[i].ingredient_id)
    &&& forall|i: int, j: int|
        0 <= i < j < rows.len() ==> !(rows[i].recipe_id == rows[j].recipe_id
            && rows[i].ingredient_id == rows[j].ingredient_id)
}

/// All four tables satisfy the schema's keys and foreign keys.
pub open spec fn store_wf(s: StoreView) -> bool {
    &&& recipes_wf(s.recipes)
    &&& catalog_wf(s.ingredients)
    &&& steps_wf(s.steps, s.recipes)
    &&& ri_wf(s.recipe_ingredients, s.recipes, s.ingredients)
}

// ---------------------------------------------------------------------------
// the repository operations as table transformations
// ---------------------------------------------------------------------------

/// The store the schema manager prepares: all four tables empty.
pub open spec fn empty_store() -> StoreView {
    StoreView {
        recipes: Seq::empty(),
        steps: Seq::empty(),
        ingredients: Seq::empty(),
        recipe_ingredients: Seq::empty(),
    }
}

/// One committed add: a recipes row under the fresh id, the step rows, the
/// lazily extended catalog, and one join row per ingredient quantity.
/// Whatever id the caller put on the recipe is ignored.
pub open spec fn add_result(s: StoreView, r: RecipeView) -> StoreView {
    let rid = fresh_recipe_id(s) as u32;
    let catalog = catalog_after(s.ingredients, r.ingredients);
    StoreView {
        recipes: s.recipes.push(RecipeRowView { id: rid, name: r.name, desc: r.desc }),
        steps: s.steps + step_rows_for(rid, r.steps),
        ingredients: catalog,
        recipe_ingredients: s.recipe_ingredients + ri_rows_for(rid, catalog, r.ingredients),
    }
}

/// One committed update of a recipe that must carry its id: the recipes row
/// is rewritten in place, the old step and join rows are deleted and the new
/// sets reinserted (wholesale replace, not a diff). An id that matches no
/// row leaves the store exactly as it was: a documented leniency, not an
/// error.
pub open spec fn update_result(s: StoreView, r: RecipeView) -> StoreView {
    let rid = r.id.unwrap();
    if !has_recipe_id(s.recipes, rid) {
        s
    } else {
        let catalog = catalog_after(s.ingredients, r.ingredients);
        StoreView {
            recipes: recipes_updated(s.recipes, rid, r.name, r.desc),
            steps: steps_without(s.steps, rid as int) + step_rows_for(rid, r.steps),
            ingredients: catalog,
            recipe_ingredients: ri_without(s.recipe_ingredients, rid as int) + ri_rows_for(
                rid,
                catalog,
                r.ingredients,
            ),
        }
    }
}

/// One committed delete: the recipes row goes, and the cascade removes every
/// dependent step and join row. The catalog keeps all its rows (no garbage
/// collection of now-unused ingredients).
pub open spec fn delete_result(s: StoreView, rid: int) -> StoreView {
    StoreView {
        recipes: recipes_without(s.recipes, rid),
        steps: steps_without(s.steps, rid),
        ingredients: s.ingredients,
        recipe_ingredients: ri_without(s.recipe_ingredients, rid),
    }
}

} // verus!
