//! The repository: an in-memory realization of the relational store whose
//! operations carry the full transactional contract. Add, update and delete
//! either commit the whole multi-table change or leave the store exactly as
//! it was; a full read reassembles every aggregate from the flat rows.
//!
//! A file-backed realization of the same contract performs its work through
//! a database engine and so lives outside the verified core.

use vstd::prelude::*;

use crate::laws::lemma_delete_missing_noop;
use crate::lemmas::{
    lemma_add_preserves_wf, lemma_catalog_add_props, lemma_catalog_after_props,
    lemma_catalog_id_at, lemma_delete_preserves_wf, lemma_ri_rows_for_extend,
    lemma_update_preserves_wf,
};
use crate::model::{
    add_result, assemble_recipe, assembled, catalog_add, catalog_after, catalog_has,
    catalog_has_id, catalog_id_of, catalog_name_of, catalog_wf, delete_result, empty_store,
    fresh_recipe_id, has_recipe_id, iqs_from, max_recipe_id, recipes_updated, recipes_without,
    ri_of, ri_rows_for, ri_without, step_rows_for, steps_texts_of, steps_without, store_wf,
    update_result,
};
use crate::recipe::{
    distinct_ingredient_names, distinct_texts, recipe_valid, IngredientQuantity,
    IngredientQuantityView, Quantity, QuantityView, Recipe, RecipeView,
};
use crate::tables::{
    IngredientRow, IngredientRowView, RecipeIngredientRow, RecipeIngredientRowView, RecipeRow,
    RecipeRowView, StepRow, StepRowView, StoreView,
};
use crate::RepoError;

verus! {

/// The four tables of the store, in natural row order.
pub struct RecipeRepo {
    pub recipes: Vec<RecipeRow>,
    pub steps: Vec<StepRow>,
    pub ingredients: Vec<IngredientRow>,
    pub recipe_ingredients: Vec<RecipeIngredientRow>,
}

impl View for RecipeRepo {
    type V = StoreView;

    open spec fn view(&self) -> StoreView {
        StoreView {
            recipes: self.recipes.deep_view(),
            steps: self.steps.deep_view(),
            ingredients: self.ingredients.deep_view(),
            recipe_ingredients: self.recipe_ingredients.deep_view(),
        }
    }
}

impl RecipeRepo {
    /// A store with the schema in place and no rows yet.
    pub fn new() -> (repo: Self)
        ensures
            repo@ == empty_store(),
            store_wf(repo@),
    {
        let repo = RecipeRepo {
            recipes: Vec::new(),
            steps: Vec::new(),
            ingredients: Vec::new(),
            recipe_ingredients: Vec::new(),
        };
        proof {
            assert(repo@ =~~= empty_store());
        }
        repo
    }

    /// Prepares the underlying storage. Idempotent: the schema here is the
    /// store's own shape, so existing rows are untouched.
    pub fn setup(&mut self)
        ensures
            *final(self) == *old(self),
    {
    }

    /// Resolves an ingredient name against the shared catalog, inserting a
    /// row with the next id on first reference: two recipes naming the same
    /// ingredient share one catalog row. Returns the id the name now has;
    /// nothing else in the store moves.
    pub fn resolve_ingredient(&mut self, name: &String) -> (id: u32)
        requires
            catalog_wf(old(self)@.ingredients),
            old(self)@.ingredients.len() < u32::MAX,
        ensures
            final(self)@.ingredients == catalog_add(old(self)@.ingredients, name@),
            final(self)@.recipes == old(self)@.recipes,
            final(self)@.steps == old(self)@.steps,
            final(self)@.recipe_ingredients == old(self)@.recipe_ingredients,
            catalog_wf(final(self)@.ingredients),
            catalog_has(final(self)@.ingredients, name@),
            id == catalog_id_of(final(self)@.ingredients, name@),
    {
        resolve_in(&mut self.ingredients, name)
    }

    /// Persists a brand-new aggregate and commits: whatever id the caller
    /// put on the recipe is ignored, storage assigns the next one. Succeeds
    /// exactly when the recipe repeats no step text and no ingredient name;
    /// a repeat violates a composite key, the whole transaction rolls back,
    /// and the write-conflict error is returned with the store untouched.
    pub fn add_recipe(&mut self, recipe: &Recipe) -> (r: Result<(), RepoError>)
        requires
            store_wf(old(self)@),
            fresh_recipe_id(old(self)@) <= u32::MAX,
            old(self)@.ingredients.len() + recipe@.ingredients.len() <= u32::MAX,
        ensures
            r is Ok <==> recipe_valid(recipe@),
            r is Err ==> final(self)@ == old(self)@ && r == Err::<(), RepoError>(
                RepoError::Conflict,
            ),
            r is Ok ==> final(self)@ == add_result(old(self)@, recipe@) && store_wf(final(self)@),
    {
        let ghost orig = old(self)@;
        if texts_have_duplicate(&recipe.steps) || ingredients_have_duplicate(&recipe.ingredients) {
            return Err(RepoError::Conflict);
        }
        let rid = max_id(&self.recipes) + 1;

        // one new root row under the fresh id, then the dependent rows
        self.recipes.push(
            RecipeRow { id: rid, name: recipe.name.clone(), desc: clone_opt_text(&recipe.desc) },
        );
        proof {
            assert(self.recipes.deep_view() =~= orig.recipes.push(
                RecipeRowView { id: rid, name: recipe@.name, desc: recipe@.desc },
            ));
        }
        append_steps(&mut self.steps, rid, &recipe.steps);
        append_ingredients(&mut self.ingredients, &mut self.recipe_ingredients, rid, &recipe.ingredients);
        proof {
            assert(self@ =~~= add_result(orig, recipe@));
            lemma_add_preserves_wf(orig, recipe@);
        }
        Ok(())
    }

    /// Replaces a persisted recipe wholesale and commits: the root row gets
    /// the new name and description, the old step and join rows are deleted,
    /// and the new sets are reinserted (resolving ingredients as an add
    /// does). The recipe must carry its id; an id that matches no row makes
    /// the whole call a successful no-op with zero effect, a documented
    /// leniency. A repeated step text or ingredient name in the payload of a
    /// persisted id violates a composite key: the whole transaction rolls
    /// back and the write-conflict error is returned with the store
    /// untouched.
    pub fn update_recipe(&mut self, recipe: &Recipe) -> (r: Result<(), RepoError>)
        requires
            store_wf(old(self)@),
            recipe@.id is Some,
            old(self)@.ingredients.len() + recipe@.ingredients.len() <= u32::MAX,
        ensures
            r is Ok <==> (recipe_valid(recipe@) || !has_recipe_id(
                old(self)@.recipes,
                recipe@.id.unwrap(),
            )),
            r is Err ==> final(self)@ == old(self)@ && r == Err::<(), RepoError>(
                RepoError::Conflict,
            ),
            r is Ok ==> final(self)@ == update_result(old(self)@, recipe@) && store_wf(
                final(self)@,
            ),
    {
        let ghost orig = old(self)@;
        let rid = recipe.id.unwrap();
        let idx_opt = find_recipe(&self.recipes, rid);
        match idx_opt {
            None => {
                proof {
                    assert(update_result(orig, recipe@) == orig);
                }
                Ok(())
            },
            Some(idx) => {
                if texts_have_duplicate(&recipe.steps) || ingredients_have_duplicate(
                    &recipe.ingredients,
                ) {
                    return Err(RepoError::Conflict);
                }
                // rewrite the root row in place, keeping its id and position
                let row = RecipeRow {
                    id: rid,
                    name: recipe.name.clone(),
                    desc: clone_opt_text(&recipe.desc),
                };
                let ghost rowg = row;
                let ghost pre_sh = self.recipes@;
                let ghost pre_dv = self.recipes.deep_view();
                self.recipes.set(idx, row);
                proof {
                    let target = recipes_updated(orig.recipes, rid, recipe@.name, recipe@.desc);
                    assert forall|k: int| 0 <= k < self.recipes.deep_view().len() implies self
                        .recipes
                        .deep_view()[k] == target[k] by {
                        assert(self.recipes.deep_view()[k] == self.recipes@[k].deep_view());
                        if k == idx as int {
                            assert(self.recipes@[k] == rowg);
                        } else {
                            assert(self.recipes@[k] == pre_sh[k]);
                            assert(pre_dv[k] == pre_sh[k].deep_view());
                            if k < idx as int {
                                assert(orig.recipes[k].id != orig.recipes[idx as int].id);
                            } else {
                                assert(orig.recipes[idx as int].id != orig.recipes[k].id);
                            }
                        }
                    }
                    assert(self.recipes.deep_view() =~= target);
                }
                // wholesale replace of the dependent rows: delete, reinsert
                let kept_steps = steps_filtered(&self.steps, rid);
                self.steps = kept_steps;
                append_steps(&mut self.steps, rid, &recipe.steps);
                let kept_ri = ri_filtered(&self.recipe_ingredients, rid);
                self.recipe_ingredients = kept_ri;
                append_ingredients(
                    &mut self.ingredients,
                    &mut self.recipe_ingredients,
                    rid,
                    &recipe.ingredients,
                );
                proof {
                    assert(self@ =~~= update_result(orig, recipe@));
                    lemma_update_preserves_wf(orig, recipe@);
                }
                Ok(())
            },
        }
    }

    /// Removes the recipe row of this id and commits; the cascade removes
    /// every step and ingredient-quantity row that referenced it, and the
    /// ingredient catalog keeps all its rows. An id that matches no row is
    /// deleted silently: success with zero effect.
    pub fn delete_recipe(&mut self, recipe_id: i32) -> (r: Result<(), RepoError>)
        requires
            store_wf(old(self)@),
        ensures
            r == Ok::<(), RepoError>(()),
            final(self)@ == delete_result(old(self)@, recipe_id as int),
            store_wf(final(self)@),
    {
        if recipe_id < 0 {
            // row ids are nonnegative, so nothing can match
            proof {
                lemma_delete_missing_noop(old(self)@, recipe_id as int);
            }
            return Ok(());
        }
        let rid = recipe_id as u32;
        let kept_recipes = recipes_filtered(&self.recipes, rid);
        let kept_steps = steps_filtered(&self.steps, rid);
        let kept_ri = ri_filtered(&self.recipe_ingredients, rid);
        self.recipes = kept_recipes;
        self.steps = kept_steps;
        self.recipe_ingredients = kept_ri;
        proof {
            assert(self@ =~~= delete_result(old(self)@, recipe_id as int));
            lemma_delete_preserves_wf(old(self)@, recipe_id as int);
        }
        Ok(())
    }

    /// Returns every persisted recipe fully reassembled from its rows, in
    /// table order, with no pagination and no filtering. In this typed
    /// realization every row decodes, so the lenient per-row skip of the
    /// storage contract has nothing to drop and the whole read is returned.
    pub fn load_recipes(&self) -> (r: Result<Vec<Recipe>, RepoError>)
        requires
            store_wf(self@),
        ensures
            r matches Ok(v) && v.deep_view() == assembled(self@),
    {
        let ghost s = self@;
        let mut out: Vec<Recipe> = Vec::new();
        let mut i: usize = 0;
        while i < self.recipes.len()
            invariant
                i <= self.recipes.len(),
                s == self@,
                store_wf(s),
                out.deep_view() == s.recipes.take(i as int).map_values(
                    |row: RecipeRowView| assemble_recipe(s, row),
                ),
            decreases self.recipes.len() - i,
        {
            let row = &self.recipes[i];
            let steps = collect_steps(&self.steps, row.id);
            let ingredients = collect_ingredients(
                &self.recipe_ingredients,
                &self.ingredients,
                row.id,
            );
            let rec = Recipe {
                id: Some(row.id),
                name: row.name.clone(),
                desc: clone_opt_text(&row.desc),
                steps: steps,
                ingredients: ingredients,
            };
            let ghost recg = rec;
            let ghost pre_dv = out.deep_view();
            let ghost pre_sh = out@;
            out.push(rec);
            proof {
                assert(recg@ == assemble_recipe(s, s.recipes[i as int]));
                assert forall|k: int| 0 <= k < out.deep_view().len() implies out.deep_view()[k]
                    == pre_dv.push(recg@)[k] by {
                    assert(out.deep_view()[k] == out@[k].deep_view());
                    if k < pre_sh.len() {
                        assert(out@[k] == pre_sh[k]);
                        assert(pre_dv[k] == pre_sh[k].deep_view());
                    } else {
                        assert(out@[k] == recg);
                    }
                }
                assert(out.deep_view() =~= pre_dv.push(recg@));
                assert(out.deep_view() =~= s.recipes.take(i as int + 1).map_values(
                    |row: RecipeRowView| assemble_recipe(s, row),
                ));
            }
            i += 1;
        }
        proof {
            assert(s.recipes.take(self.recipes.len() as int) =~= s.recipes);
            assert(out.deep_view() =~= assembled(s));
        }
        Ok(out)
    }
}

/// The position of the recipes row carrying this id, or nothing.
fn find_recipe(rows: &Vec<RecipeRow>, rid: u32) -> (r: Option<usize>)
    ensures
        match r {
            Some(idx) => idx < rows.len() && rows.deep_view()[idx as int].id == rid
                && has_recipe_id(rows.deep_view(), rid),
            None => !has_recipe_id(rows.deep_view(), rid),
        },
{
    let ghost all = rows.deep_view();
    let mut i: usize = 0;
    while i < rows.len()
        invariant
            i <= rows.len(),
            all == rows.deep_view(),
            forall|k: int| 0 <= k < i ==> all[k].id != rid,
        decreases rows.len() - i,
    {
        if rows[i].id == rid {
            proof {
                assert(all[i as int].id == rid);
            }
            return Some(i);
        }
        i += 1;
    }
    None
}

/// The largest id in the `recipes` table, 0 when it is empty.
fn max_id(rows: &Vec<RecipeRow>) -> (m: u32)
    ensures
        m as int == max_recipe_id(rows.deep_view()),
{
    let ghost all = rows.deep_view();
    let mut m: u32 = 0;
    let mut i: usize = 0;
    while i < rows.len()
        invariant
            i <= rows.len(),
            all == rows.deep_view(),
            m as int == max_recipe_id(all.take(i as int)),
        decreases rows.len() - i,
    {
        proof {
            assert(all.take(i as int + 1).drop_last() =~= all.take(i as int));
            assert(all.take(i as int + 1).last() == all[i as int]);
        }
        if rows[i].id > m {
            m = rows[i].id;
        }
        i += 1;
    }
    proof {
        assert(all.take(rows.len() as int) =~= all);
    }
    m
}

/// Looks a name up in the catalog: the id of its row, or nothing.
fn catalog_find(rows: &Vec<IngredientRow>, name: &String) -> (r: Option<u32>)
    requires
        catalog_wf(rows.deep_view()),
    ensures
        match r {
            Some(id) => catalog_has(rows.deep_view(), name@) && id == catalog_id_of(
                rows.deep_view(),
                name@,
            ),
            None => !catalog_has(rows.deep_view(), name@),
        },
{
    let ghost all = rows.deep_view();
    let mut i: usize = 0;
    while i < rows.len()
        invariant
            i <= rows.len(),
            all == rows.deep_view(),
            catalog_wf(all),
            forall|k: int| 0 <= k < i ==> all[k].name !== name@,
        decreases rows.len() - i,
    {
        if rows[i].name == *name {
            proof {
                assert(all[i as int].name == name@);
                lemma_catalog_id_at(all, i as int);
            }
            return Some(rows[i].id);
        }
        i += 1;
    }
    None
}

/// Duplicates an optional description, text for text.
fn clone_opt_text(v: &Option<String>) -> (r: Option<String>)
    ensures
        r.deep_view() == v.deep_view(),
{
    match v {
        Some(s) => Some(s.clone()),
        None => None,
    }
}

/// The `recipes` table without the rows of one id, order kept.
fn recipes_filtered(rows: &Vec<RecipeRow>, rid: u32) -> (kept: Vec<RecipeRow>)
    ensures
        kept.deep_view() == recipes_without(rows.deep_view(), rid as int),
{
    let ghost all = rows.deep_view();
    let mut kept: Vec<RecipeRow> = Vec::new();
    let mut i: usize = 0;
    while i < rows.len()
        invariant
            i <= rows.len(),
            all == rows.deep_view(),
            kept.deep_view() == recipes_without(all.take(i as int), rid as int),
        decreases rows.len() - i,
    {
        proof {
            assert(all.take(i as int + 1).drop_last() =~= all.take(i as int));
            assert(all.take(i as int + 1).last() == all[i as int]);
        }
        let row = &rows[i];
        let keep = row.id != rid;
        assert(keep == (all[i as int].id as int != rid as int));
        if keep {
            let copy = RecipeRow {
                id: row.id,
                name: row.name.clone(),
                desc: clone_opt_text(&row.desc),
            };
            assert(copy@ == all[i as int]);
            kept.push(copy);
            proof {
                assert(kept.deep_view() =~= recipes_without(all.take(i as int + 1), rid as int));
            }
        }
        i += 1;
    }
    proof {
        assert(all.take(rows.len() as int) =~= all);
    }
    kept
}

/// The `steps` table without the rows of one recipe, order kept.
fn steps_filtered(rows: &Vec<StepRow>, rid: u32) -> (kept: Vec<StepRow>)
    ensures
        kept.deep_view() == steps_without(rows.deep_view(), rid as int),
{
    let ghost all = rows.deep_view();
    let mut kept: Vec<StepRow> = Vec::new();
    let mut i: usize = 0;
    while i < rows.len()
        invariant
            i <= rows.len(),
            all == rows.deep_view(),
            kept.deep_view() == steps_without(all.take(i as int), rid as int),
        decreases rows.len() - i,
    {
        proof {
            assert(all.take(i as int + 1).drop_last() =~= all.take(i as int));
            assert(all.take(i as int + 1).last() == all[i as int]);
        }
        let row = &rows[i];
        let keep = row.recipe_id != rid;
        assert(keep == (all[i as int].recipe_id as int != rid as int));
        if keep {
            let copy = StepRow { recipe_id: row.recipe_id, text: row.text.clone() };
            assert(copy@ == all[i as int]);
            kept.push(copy);
            proof {
                assert(kept.deep_view() =~= steps_without(all.take(i as int + 1), rid as int));
            }
        }
        i += 1;
    }
    proof {
        assert(all.take(rows.len() as int) =~= all);
    }
    kept
}

/// The join table without the rows of one recipe, order kept.
fn ri_filtered(rows: &Vec<RecipeIngredientRow>, rid: u32) -> (kept: Vec<RecipeIngredientRow>)
    ensures
        kept.deep_view() == ri_without(rows.deep_view(), rid as int),
{
    let ghost all = rows.deep_view();
    let mut kept: Vec<RecipeIngredientRow> = Vec::new();
    let mut i: usize = 0;
    while i < rows.len()
        invariant
            i <= rows.len(),
            all == rows.deep_view(),
            kept.deep_view() == ri_without(all.take(i as int), rid as int),
        decreases rows.len() - i,
    {
        proof {
            assert(all.take(i as int + 1).drop_last() =~= all.take(i as int));
            assert(all.take(i as int + 1).last() == all[i as int]);
        }
        let row = &rows[i];
        let keep = row.recipe_id != rid;
        assert(keep == (all[i as int].recipe_id as int != rid as int));
        if keep {
            let copy = RecipeIngredientRow {
                recipe_id: row.recipe_id,
                ingredient_id: row.ingredient_id,
                value_bits: row.value_bits,
                unit: row.unit.clone(),
            };
            assert(copy@ == all[i as int]);
            kept.push(copy);
            proof {
                assert(kept.deep_view() =~= ri_without(all.take(i as int + 1), rid as int));
            }
        }
        i += 1;
    }
    proof {
        assert(all.take(rows.len() as int) =~= all);
    }
    kept
}

/// Resolves one ingredient name against a catalog, inserting a row with the
/// next id on first reference. Returns the id the name now has.
fn resolve_in(rows: &mut Vec<IngredientRow>, name: &String) -> (id: u32)
    requires
        catalog_wf(old(rows).deep_view()),
        old(rows).deep_view().len() < u32::MAX,
    ensures
        final(rows).deep_view() == catalog_add(old(rows).deep_view(), name@),
        catalog_wf(final(rows).deep_view()),
        catalog_has(final(rows).deep_view(), name@),
        id == catalog_id_of(final(rows).deep_view(), name@),
{
    proof {
        lemma_catalog_add_props(rows.deep_view(), name@);
    }
    let found = catalog_find(rows, name);
    match found {
        Some(id) => {
            proof {
                assert(catalog_add(old(rows).deep_view(), name@) == old(rows).deep_view());
            }
            id
        },
        None => {
            let id = rows.len() as u32 + 1;
            let row = IngredientRow { id: id, name: name.clone() };
            let ghost rowg = row;
            let ghost pre_dv = rows.deep_view();
            let ghost pre_sh = rows@;
            rows.push(row);
            proof {
                assert(rowg@ == IngredientRowView { id: id, name: name@ });
                assert forall|k: int| 0 <= k < rows.deep_view().len() implies rows.deep_view()[k]
                    == pre_dv.push(rowg@)[k] by {
                    assert(rows.deep_view()[k] == rows@[k].deep_view());
                    if k < pre_sh.len() {
                        assert(rows@[k] == pre_sh[k]);
                        assert(pre_dv[k] == pre_sh[k].deep_view());
                    } else {
                        assert(rows@[k] == rowg);
                    }
                }
                assert(rows.deep_view() =~= catalog_add(old(rows).deep_view(), name@));
                assert(rows.deep_view().last().name == name@);
            }
            id
        },
    }
}

/// Inserts one `steps` row per text for this recipe, in caller order.
fn append_steps(steps: &mut Vec<StepRow>, rid: u32, texts: &Vec<String>)
    ensures
        final(steps).deep_view() == old(steps).deep_view() + step_rows_for(
            rid,
            texts.deep_view(),
        ),
{
    let ghost base = old(steps).deep_view();
    let ghost ts = texts.deep_view();
    let mut i: usize = 0;
    while i < texts.len()
        invariant
            i <= texts.len(),
            ts == texts.deep_view(),
            steps.deep_view() == base + step_rows_for(rid, ts.take(i as int)),
        decreases texts.len() - i,
    {
        let row = StepRow { recipe_id: rid, text: texts[i].clone() };
        let ghost rowg = row;
        let ghost pre_dv = steps.deep_view();
        let ghost pre_sh = steps@;
        steps.push(row);
        proof {
            assert(rowg@ == StepRowView { recipe_id: rid, text: ts[i as int] });
            assert forall|k: int| 0 <= k < steps.deep_view().len() implies steps.deep_view()[k]
                == pre_dv.push(rowg@)[k] by {
                assert(steps.deep_view()[k] == steps@[k].deep_view());
                if k < pre_sh.len() {
                    assert(steps@[k] == pre_sh[k]);
                    assert(pre_dv[k] == pre_sh[k].deep_view());
                } else {
                    assert(steps@[k] == rowg);
                }
            }
            assert(steps.deep_view() =~= pre_dv.push(rowg@));
            assert(step_rows_for(rid, ts.take(i as int + 1)) =~= step_rows_for(
                rid,
                ts.take(i as int),
            ).push(StepRowView { recipe_id: rid, text: ts[i as int] }));
            assert(steps.deep_view() =~= base + step_rows_for(rid, ts.take(i as int + 1)));
        }
        i += 1;
    }
    proof {
        assert(ts.take(texts.len() as int) =~= ts);
    }
}

/// Resolves every referenced ingredient name within the same pass, then
/// inserts one join row per ingredient quantity, in caller order, each
/// referencing the id its name resolved to.
fn append_ingredients(
    catalog: &mut Vec<IngredientRow>,
    ri: &mut Vec<RecipeIngredientRow>,
    rid: u32,
    iqs_vec: &Vec<IngredientQuantity>,
)
    requires
        catalog_wf(old(catalog).deep_view()),
        old(catalog).deep_view().len() + iqs_vec.deep_view().len() <= u32::MAX,
    ensures
        final(catalog).deep_view() == catalog_after(
            old(catalog).deep_view(),
            iqs_vec.deep_view(),
        ),
        catalog_wf(final(catalog).deep_view()),
        final(ri).deep_view() == old(ri).deep_view() + ri_rows_for(
            rid,
            final(catalog).deep_view(),
            iqs_vec.deep_view(),
        ),
{
    let ghost base_cat = old(catalog).deep_view();
    let ghost base_ri = old(ri).deep_view();
    let ghost iqs = iqs_vec.deep_view();
    let mut j: usize = 0;
    while j < iqs_vec.len()
        invariant
            j <= iqs_vec.len(),
            iqs == iqs_vec.deep_view(),
            catalog_wf(base_cat),
            base_cat.len() + iqs.len() <= u32::MAX,
            catalog.deep_view() == catalog_after(base_cat, iqs.take(j as int)),
            ri.deep_view() == base_ri + ri_rows_for(rid, catalog.deep_view(), iqs.take(j as int)),
        decreases iqs_vec.len() - j,
    {
        let ghost cat_pre = catalog.deep_view();
        proof {
            lemma_catalog_after_props(base_cat, iqs.take(j as int));
            assert(cat_pre.len() <= base_cat.len() + j);
        }
        let iq = &iqs_vec[j];
        let iid = resolve_in(catalog, &iq.ingredient);
        let ghost cat_post = catalog.deep_view();
        proof {
            lemma_catalog_add_props(cat_pre, iqs[j as int].ingredient);
            assert(cat_post == catalog_add(cat_pre, iqs[j as int].ingredient));
            assert(iqs.take(j as int + 1).drop_last() =~= iqs.take(j as int));
            assert(iqs.take(j as int + 1).last() == iqs[j as int]);
            assert(cat_post == catalog_after(base_cat, iqs.take(j as int + 1)));
            lemma_ri_rows_for_extend(rid, cat_pre, cat_post, iqs.take(j as int));
        }
        let row = RecipeIngredientRow {
            recipe_id: rid,
            ingredient_id: iid,
            value_bits: iq.quantity.value_bits,
            unit: iq.quantity.unit.clone(),
        };
        let ghost rowg = row;
        let ghost pre_dv = ri.deep_view();
        let ghost pre_sh = ri@;
        ri.push(row);
        proof {
            assert(rowg@ == RecipeIngredientRowView {
                recipe_id: rid,
                ingredient_id: catalog_id_of(cat_post, iqs[j as int].ingredient),
                value_bits: iqs[j as int].quantity.value_bits,
                unit: iqs[j as int].quantity.unit,
            });
            assert forall|k: int| 0 <= k < ri.deep_view().len() implies ri.deep_view()[k]
                == pre_dv.push(rowg@)[k] by {
                assert(ri.deep_view()[k] == ri@[k].deep_view());
                if k < pre_sh.len() {
                    assert(ri@[k] == pre_sh[k]);
                    assert(pre_dv[k] == pre_sh[k].deep_view());
                } else {
                    assert(ri@[k] == rowg);
                }
            }
            assert(ri.deep_view() =~= pre_dv.push(rowg@));
            assert(ri_rows_for(rid, cat_post, iqs.take(j as int + 1)) =~= ri_rows_for(
                rid,
                cat_post,
                iqs.take(j as int),
            ).push(rowg@));
            assert(ri.deep_view() =~= base_ri + ri_rows_for(
                rid,
                cat_post,
                iqs.take(j as int + 1),
            ));
        }
        j += 1;
    }
    proof {
        assert(iqs.take(iqs_vec.len() as int) =~= iqs);
        lemma_catalog_after_props(base_cat, iqs);
    }
}

/// The step texts of one recipe, gathered in table order.
fn collect_steps(rows: &Vec<StepRow>, rid: u32) -> (out: Vec<String>)
    ensures
        out.deep_view() == steps_texts_of(rows.deep_view(), rid as int),
{
    let ghost all = rows.deep_view();
    let mut out: Vec<String> = Vec::new();
    let mut i: usize = 0;
    while i < rows.len()
        invariant
            i <= rows.len(),
            all == rows.deep_view(),
            out.deep_view() == steps_texts_of(all.take(i as int), rid as int),
        decreases rows.len() - i,
    {
        proof {
            assert(all.take(i as int + 1).drop_last() =~= all.take(i as int));
            assert(all.take(i as int + 1).last() == all[i as int]);
        }
        let row = &rows[i];
        if row.recipe_id == rid {
            let text = row.text.clone();
            let ghost pre_dv = out.deep_view();
            let ghost pre_sh = out@;
            let ghost textg = text;
            out.push(text);
            proof {
                assert(textg@ == all[i as int].text);
                assert forall|k: int| 0 <= k < out.deep_view().len() implies out.deep_view()[k]
                    == pre_dv.push(textg@)[k] by {
                    assert(out.deep_view()[k] == out@[k].deep_view());
                    if k < pre_sh.len() {
                        assert(out@[k] == pre_sh[k]);
                        assert(pre_dv[k] == pre_sh[k].deep_view());
                    } else {
                        assert(out@[k] == textg);
                    }
                }
                assert(out.deep_view() =~= steps_texts_of(all.take(i as int + 1), rid as int));
            }
        }
        i += 1;
    }
    proof {
        assert(all.take(rows.len() as int) =~= all);
    }
    out
}

/// The name a catalog id denotes: rows are never deleted, so id `k` sits at
/// position `k - 1`.
fn catalog_name(rows: &Vec<IngredientRow>, iid: u32) -> (name: String)
    requires
        catalog_wf(rows.deep_view()),
        catalog_has_id(rows.deep_view(), iid),
    ensures
        name@ == catalog_name_of(rows.deep_view(), iid),
{
    proof {
        let m = choose|m: int|
            0 <= m < rows.deep_view().len() && rows.deep_view()[m].id == iid;
        assert(rows.deep_view()[m].id as int == m + 1);
    }
    let idx = (iid - 1) as usize;
    rows[idx].name.clone()
}

/// The ingredient quantities of one recipe, gathered from its join rows in
/// table order, names recovered through the catalog.
fn collect_ingredients(rows: &Vec<RecipeIngredientRow>, catalog: &Vec<IngredientRow>, rid: u32) -> (out: Vec<
    IngredientQuantity,
>)
    requires
        catalog_wf(catalog.deep_view()),
        forall|k: int|
            0 <= k < rows.deep_view().len() ==> catalog_has_id(
                catalog.deep_view(),
                #[trigger] rows.deep_view()[k].ingredient_id,
            ),
    ensures
        out.deep_view() == iqs_from(rows.deep_view(), catalog.deep_view(), rid as int),
{
    let ghost all = rows.deep_view();
    let ghost cat = catalog.deep_view();
    let mut out: Vec<IngredientQuantity> = Vec::new();
    let mut i: usize = 0;
    while i < rows.len()
        invariant
            i <= rows.len(),
            all == rows.deep_view(),
            cat == catalog.deep_view(),
            catalog_wf(cat),
            forall|k: int|
                0 <= k < all.len() ==> catalog_has_id(cat, #[trigger] all[k].ingredient_id),
            out.deep_view() == iqs_from(all.take(i as int), cat, rid as int),
        decreases rows.len() - i,
    {
        proof {
            assert(all.take(i as int + 1).drop_last() =~= all.take(i as int));
            assert(all.take(i as int + 1).last() == all[i as int]);
        }
        let row = &rows[i];
        if row.recipe_id == rid {
            proof {
                assert(catalog_has_id(cat, all[i as int].ingredient_id));
            }
            let name = catalog_name(catalog, row.ingredient_id);
            let iq = IngredientQuantity {
                ingredient: name,
                quantity: Quantity { value_bits: row.value_bits, unit: row.unit.clone() },
            };
            let ghost iqg = iq;
            let ghost pre_dv = out.deep_view();
            let ghost pre_sh = out@;
            out.push(iq);
            proof {
                assert(iqg@ == IngredientQuantityView {
                    ingredient: catalog_name_of(cat, all[i as int].ingredient_id),
                    quantity: QuantityView {
                        value_bits: all[i as int].value_bits,
                        unit: all[i as int].unit,
                    },
                });
                assert forall|k: int| 0 <= k < out.deep_view().len() implies out.deep_view()[k]
                    == pre_dv.push(iqg@)[k] by {
                    assert(out.deep_view()[k] == out@[k].deep_view());
                    if k < pre_sh.len() {
                        assert(out@[k] == pre_sh[k]);
                        assert(pre_dv[k] == pre_sh[k].deep_view());
                    } else {
                        assert(out@[k] == iqg);
                    }
                }
                assert(out.deep_view() =~= pre_dv.push(iqg@));
                assert(ri_of(all.take(i as int + 1), rid as int) =~= ri_of(
                    all.take(i as int),
                    rid as int,
                ).push(all[i as int]));
                assert(out.deep_view() =~= iqs_from(all.take(i as int + 1), cat, rid as int));
            }
        } else {
            proof {
                assert(ri_of(all.take(i as int + 1), rid as int) =~= ri_of(
                    all.take(i as int),
                    rid as int,
                ));
                assert(out.deep_view() =~= iqs_from(all.take(i as int + 1), cat, rid as int));
            }
        }
        i += 1;
    }
    proof {
        assert(all.take(rows.len() as int) =~= all);
    }
    out
}

/// True exactly when two of the texts are equal: such a list would violate
/// the composite primary key of `steps`.
fn texts_have_duplicate(v: &Vec<String>) -> (dup: bool)
    ensures
        dup == !distinct_texts(v.deep_view()),
{
    let ghost texts = v.deep_view();
    let mut i: usize = 0;
    while i < v.len()
        invariant
            i <= v.len(),
            texts == v.deep_view(),
            distinct_texts(texts.take(i as int)),
        decreases v.len() - i,
    {
        let mut j: usize = 0;
        while j < i
            invariant
                j <= i < v.len(),
                texts == v.deep_view(),
                forall|k: int| 0 <= k < j ==> texts[k] !== texts[i as int],
            decreases i - j,
        {
            if v[j] == v[i] {
                assert(texts[j as int] == texts[i as int]);
                return true;
            }
            j += 1;
        }
        proof {
            let pre = texts.take(i as int);
            let ext = texts.take(i as int + 1);
            assert forall|a: int, b: int| 0 <= a < b < ext.len() implies ext[a] !== ext[b] by {
                if b < i as int {
                    assert(pre[a] !== pre[b]);
                }
            }
        }
        i += 1;
    }
    proof {
        assert(texts.take(v.len() as int) =~= texts);
    }
    false
}

/// True exactly when two of the entries name the same ingredient: such a
/// list would violate the composite primary key of `recipe_ingredients`.
fn ingredients_have_duplicate(v: &Vec<IngredientQuantity>) -> (dup: bool)
    ensures
        dup == !distinct_ingredient_names(v.deep_view()),
{
    let ghost iqs = v.deep_view();
    let mut i: usize = 0;
    while i < v.len()
        invariant
            i <= v.len(),
            iqs == v.deep_view(),
            distinct_ingredient_names(iqs.take(i as int)),
        decreases v.len() - i,
    {
        let mut j: usize = 0;
        while j < i
            invariant
                j <= i < v.len(),
                iqs == v.deep_view(),
                forall|k: int| 0 <= k < j ==> iqs[k].ingredient !== iqs[i as int].ingredient,
            decreases i - j,
        {
            if v[j].ingredient == v[i].ingredient {
                assert(iqs[j as int].ingredient == iqs[i as int].ingredient);
                return true;
            }
            j += 1;
        }
        proof {
            let pre = iqs.take(i as int);
            let ext = iqs.take(i as int + 1);
            assert forall|a: int, b: int| 0 <= a < b < ext.len() implies ext[a].ingredient
                !== ext[b].ingredient by {
                if b < i as int {
                    assert(pre[a].ingredient !== pre[b].ingredient);
                }
            }
        }
        i += 1;
    }
    proof {
        assert(iqs.take(v.len() as int) =~= iqs);
    }
    false
}

} // verus!
