//! The store-wide guarantees of the repository, each proved once and for all
//! over the model: what a full read returns after an add or an update, that
//! a shared ingredient name resolves to one catalog row, that a delete
//! cascades completely, and that a missing id makes delete and update
//! silent no-ops.

use vstd::prelude::*;

use crate::lemmas::{
    lemma_catalog_after_props, lemma_catalog_resolve, lemma_iqs_catalog_extend,
    lemma_max_recipe_id_bound, lemma_recipes_without_props, lemma_ri_of_concat, lemma_ri_of_none,
    lemma_ri_of_rows_for, lemma_ri_of_without_other, lemma_ri_without_noop,
    lemma_ri_without_props, lemma_steps_texts_concat, lemma_steps_texts_none,
    lemma_steps_texts_rows_for, lemma_steps_texts_without_other, lemma_steps_without_noop,
    lemma_steps_without_props, lemma_recipes_without_noop, lemma_add_preserves_wf,
};
use crate::model::{
    add_result, assemble_recipe, assembled, catalog_after, catalog_has, catalog_id_of,
    catalog_name_of, delete_result, fresh_recipe_id, has_recipe_id, iqs_from, iqs_of,
    max_recipe_id, ri_of, ri_rows_for, ri_without, step_rows_for, steps_texts_of, steps_without,
    store_wf, update_result, with_assigned_id,
};
use crate::recipe::{recipe_valid, RecipeView};
use crate::tables::{RecipeRowView, StoreView};

verus! {

/// Round trip of a write: adding a valid recipe and reading everything back
/// yields exactly the collection read before, plus one entry equal to the
/// recipe except for the storage-assigned id. Nothing else moves.
pub proof fn lemma_add_round_trip(s: StoreView, r: RecipeView)
    requires
        store_wf(s),
        recipe_valid(r),
        fresh_recipe_id(s) <= u32::MAX,
        s.ingredients.len() + r.ingredients.len() <= u32::MAX,
    ensures
        assembled(add_result(s, r)) == assembled(s).push(
            with_assigned_id(r, fresh_recipe_id(s) as u32),
        ),
{
    let a = add_result(s, r);
    let rid = fresh_recipe_id(s) as u32;
    let catalog = catalog_after(s.ingredients, r.ingredients);
    let new_steps = step_rows_for(rid, r.steps);
    let new_ri = ri_rows_for(rid, catalog, r.ingredients);
    lemma_max_recipe_id_bound(s.recipes);
    lemma_catalog_after_props(s.ingredients, r.ingredients);

    // no existing dependent row can reference the fresh id
    assert forall|k: int| 0 <= k < s.steps.len() implies #[trigger] s.steps[k].recipe_id as int
        != rid as int by {
        assert(has_recipe_id(s.recipes, s.steps[k].recipe_id));
        let m = choose|m: int| 0 <= m < s.recipes.len() && s.recipes[m].id == s.steps[k].recipe_id;
        assert(s.recipes[m].id as int <= max_recipe_id(s.recipes));
    }
    assert forall|k: int|
        0 <= k < s.recipe_ingredients.len() implies #[trigger] s.recipe_ingredients[k].recipe_id
        as int != rid as int by {
        assert(has_recipe_id(s.recipes, s.recipe_ingredients[k].recipe_id));
        let m = choose|m: int|
            0 <= m < s.recipes.len() && s.recipes[m].id == s.recipe_ingredients[k].recipe_id;
        assert(s.recipes[m].id as int <= max_recipe_id(s.recipes));
    }

    // entries of the previous read are untouched
    assert forall|k: int| 0 <= k < s.recipes.len() implies #[trigger] assembled(a)[k]
        == assembled(s)[k] by {
        let row = s.recipes[k];
        assert(a.recipes[k] == row);
        let x = row.id as int;
        assert(row.id as int <= max_recipe_id(s.recipes));
        lemma_steps_texts_concat(s.steps, new_steps, x);
        lemma_steps_texts_rows_for(rid, r.steps, x);
        assert(steps_texts_of(a.steps, x) =~= steps_texts_of(s.steps, x));
        lemma_ri_of_concat(s.recipe_ingredients, new_ri, x);
        lemma_ri_of_rows_for(rid, catalog, r.ingredients, x);
        assert(ri_of(a.recipe_ingredients, x) =~= ri_of(s.recipe_ingredients, x));
        assert(iqs_from(a.recipe_ingredients, catalog, x) =~= iqs_from(
            s.recipe_ingredients,
            catalog,
            x,
        ));
        lemma_iqs_catalog_extend(s.recipe_ingredients, s.ingredients, catalog, x);
        assert(assemble_recipe(a, row) =~~= assemble_recipe(s, row));
    }

    // the appended entry reads back as the recipe under its new id
    let n = s.recipes.len() as int;
    assert(a.recipes[n] == RecipeRowView { id: rid, name: r.name, desc: r.desc });
    lemma_steps_texts_concat(s.steps, new_steps, rid as int);
    lemma_steps_texts_none(s.steps, rid as int);
    lemma_steps_texts_rows_for(rid, r.steps, rid as int);
    assert(steps_texts_of(a.steps, rid as int) =~= r.steps);
    lemma_ri_of_concat(s.recipe_ingredients, new_ri, rid as int);
    lemma_ri_of_none(s.recipe_ingredients, rid as int);
    lemma_ri_of_rows_for(rid, catalog, r.ingredients, rid as int);
    assert(ri_of(a.recipe_ingredients, rid as int) =~= new_ri);
    assert forall|j: int| 0 <= j < r.ingredients.len() implies #[trigger] iqs_of(
        a,
        rid as int,
    )[j] == r.ingredients[j] by {
        let name = r.ingredients[j].ingredient;
        assert(catalog_has(catalog, name));
        lemma_catalog_resolve(catalog, name);
        assert(new_ri[j].ingredient_id == catalog_id_of(catalog, name));
        assert(catalog_name_of(catalog, new_ri[j].ingredient_id) == name);
    }
    assert(iqs_of(a, rid as int) =~= r.ingredients);
    assert(assemble_recipe(a, a.recipes[n]) =~~= with_assigned_id(r, rid));

    assert(assembled(a) =~= assembled(s).push(with_assigned_id(r, rid)));
}

/// Ingredient dedup: after two adds whose recipes both reference the same
/// ingredient name, the catalog holds exactly one row with that name, and
/// each of the two new recipes has a join row referencing that single row's
/// id.
pub proof fn lemma_ingredient_dedup(s: StoreView, r1: RecipeView, r2: RecipeView, name: Seq<char>)
    requires
        store_wf(s),
        recipe_valid(r1),
        recipe_valid(r2),
        exists|i: int| 0 <= i < r1.ingredients.len() && r1.ingredients[i].ingredient == name,
        exists|i: int| 0 <= i < r2.ingredients.len() && r2.ingredients[i].ingredient == name,
        fresh_recipe_id(s) + 1 <= u32::MAX,
        s.ingredients.len() + r1.ingredients.len() + r2.ingredients.len() <= u32::MAX,
    ensures
        catalog_has(add_result(add_result(s, r1), r2).ingredients, name),
        forall|i: int, j: int|
            0 <= i < j < add_result(add_result(s, r1), r2).ingredients.len() ==> !(add_result(
                add_result(s, r1),
                r2,
            ).ingredients[i].name == name && add_result(add_result(s, r1), r2).ingredients[j].name
                == name),
        exists|k: int|
            0 <= k < add_result(add_result(s, r1), r2).recipe_ingredients.len()
                && #[trigger] add_result(add_result(s, r1), r2).recipe_ingredients[k].recipe_id
                as int == fresh_recipe_id(s) && add_result(
                add_result(s, r1),
                r2,
            ).recipe_ingredients[k].ingredient_id == catalog_id_of(
                add_result(add_result(s, r1), r2).ingredients,
                name,
            ),
        exists|k: int|
            0 <= k < add_result(add_result(s, r1), r2).recipe_ingredients.len()
                && #[trigger] add_result(add_result(s, r1), r2).recipe_ingredients[k].recipe_id
                as int == fresh_recipe_id(s) + 1 && add_result(
                add_result(s, r1),
                r2,
            ).recipe_ingredients[k].ingredient_id == catalog_id_of(
                add_result(add_result(s, r1), r2).ingredients,
                name,
            ),
{
    let s1 = add_result(s, r1);
    let s2 = add_result(s1, r2);
    let rid1 = fresh_recipe_id(s) as u32;
    let catalog1 = catalog_after(s.ingredients, r1.ingredients);
    lemma_max_recipe_id_bound(s.recipes);
    lemma_catalog_after_props(s.ingredients, r1.ingredients);
    lemma_add_preserves_wf(s, r1);

    // the second fresh id is one past the first
    assert(s1.recipes.drop_last() =~= s.recipes);
    assert(s1.recipes.last().id == rid1);
    assert(max_recipe_id(s1.recipes) == rid1 as int);
    let rid2 = fresh_recipe_id(s1) as u32;
    assert(rid2 as int == fresh_recipe_id(s) + 1);
    let catalog2 = catalog_after(s1.ingredients, r2.ingredients);
    lemma_catalog_after_props(s1.ingredients, r2.ingredients);
    assert(catalog_has(catalog1, name));
    assert(catalog_has(catalog2, name));
    assert(catalog_id_of(catalog2, name) == catalog_id_of(catalog1, name));
    lemma_add_preserves_wf(s1, r2);

    // the first recipe's join row for the name, still in place after both adds
    let j1 = choose|i: int| 0 <= i < r1.ingredients.len() && r1.ingredients[i].ingredient == name;
    let k1 = s.recipe_ingredients.len() + j1;
    assert(s1.recipe_ingredients[k1] == ri_rows_for(rid1, catalog1, r1.ingredients)[j1]);
    assert(s1.recipe_ingredients[k1].recipe_id == rid1);
    assert(s1.recipe_ingredients[k1].ingredient_id == catalog_id_of(catalog1, name));
    assert(s2.recipe_ingredients[k1] == s1.recipe_ingredients[k1]);

    // the second recipe's join row for the name
    let j2 = choose|i: int| 0 <= i < r2.ingredients.len() && r2.ingredients[i].ingredient == name;
    let k2 = s1.recipe_ingredients.len() + j2;
    assert(s2.recipe_ingredients[k2] == ri_rows_for(rid2, catalog2, r2.ingredients)[j2]);
    assert(s2.recipe_ingredients[k2].recipe_id == rid2);
    assert(s2.recipe_ingredients[k2].ingredient_id == catalog_id_of(catalog2, name));
}

/// Cascade delete: after a delete, no surviving row of any table references
/// the deleted id — the root row is gone and no orphan dependents remain.
pub proof fn lemma_cascade_delete(s: StoreView, rid: int)
    requires
        store_wf(s),
    ensures
        forall|k: int|
            0 <= k < delete_result(s, rid).recipes.len() ==> #[trigger] delete_result(
                s,
                rid,
            ).recipes[k].id as int != rid,
        forall|k: int|
            0 <= k < delete_result(s, rid).steps.len() ==> #[trigger] delete_result(
                s,
                rid,
            ).steps[k].recipe_id as int != rid,
        forall|k: int|
            0 <= k < delete_result(s, rid).recipe_ingredients.len() ==> #[trigger] delete_result(
                s,
                rid,
            ).recipe_ingredients[k].recipe_id as int != rid,
{
    lemma_recipes_without_props(s.recipes, rid);
    lemma_steps_without_props(s.steps, rid);
    lemma_ri_without_props(s.recipe_ingredients, rid);
}

/// Update replace semantics: updating a persisted recipe and reading back
/// yields the updated aggregate in place — its steps and ingredients are
/// exactly the new sets, empty ones included — while every other entry of
/// the read is untouched.
pub proof fn lemma_update_round_trip(s: StoreView, r: RecipeView)
    requires
        store_wf(s),
        recipe_valid(r),
        r.id is Some,
        has_recipe_id(s.recipes, r.id.unwrap()),
        s.ingredients.len() + r.ingredients.len() <= u32::MAX,
    ensures
        update_result(s, r).recipes.len() == s.recipes.len(),
        forall|k: int|
            0 <= k < s.recipes.len() && s.recipes[k].id == r.id.unwrap()
                ==> #[trigger] assembled(update_result(s, r))[k] == r,
        forall|k: int|
            0 <= k < s.recipes.len() && s.recipes[k].id != r.id.unwrap()
                ==> #[trigger] assembled(update_result(s, r))[k] == assembled(s)[k],
{
    let rid = r.id.unwrap();
    let u = update_result(s, r);
    let catalog = catalog_after(s.ingredients, r.ingredients);
    let kept_steps = steps_without(s.steps, rid as int);
    let kept_ri = ri_without(s.recipe_ingredients, rid as int);
    let new_steps = step_rows_for(rid, r.steps);
    let new_ri = ri_rows_for(rid, catalog, r.ingredients);
    lemma_catalog_after_props(s.ingredients, r.ingredients);
    lemma_steps_without_props(s.steps, rid as int);
    lemma_ri_without_props(s.recipe_ingredients, rid as int);

    assert forall|k: int|
        0 <= k < s.recipes.len() && s.recipes[k].id == rid implies #[trigger] assembled(u)[k]
        == r by {
        assert(u.recipes[k] == RecipeRowView { id: rid, name: r.name, desc: r.desc });
        lemma_steps_texts_concat(kept_steps, new_steps, rid as int);
        lemma_steps_texts_none(kept_steps, rid as int);
        lemma_steps_texts_rows_for(rid, r.steps, rid as int);
        assert(steps_texts_of(u.steps, rid as int) =~= r.steps);
        lemma_ri_of_concat(kept_ri, new_ri, rid as int);
        lemma_ri_of_none(kept_ri, rid as int);
        lemma_ri_of_rows_for(rid, catalog, r.ingredients, rid as int);
        assert(ri_of(u.recipe_ingredients, rid as int) =~= new_ri);
        assert forall|j: int| 0 <= j < r.ingredients.len() implies #[trigger] iqs_of(
            u,
            rid as int,
        )[j] == r.ingredients[j] by {
            let name = r.ingredients[j].ingredient;
            assert(catalog_has(catalog, name));
            lemma_catalog_resolve(catalog, name);
            assert(new_ri[j].ingredient_id == catalog_id_of(catalog, name));
            assert(catalog_name_of(catalog, new_ri[j].ingredient_id) == name);
        }
        assert(iqs_of(u, rid as int) =~= r.ingredients);
        assert(assemble_recipe(u, u.recipes[k]) =~~= r);
    }

    assert forall|k: int|
        0 <= k < s.recipes.len() && s.recipes[k].id != rid implies #[trigger] assembled(u)[k]
        == assembled(s)[k] by {
        let row = s.recipes[k];
        assert(u.recipes[k] == row);
        let x = row.id as int;
        lemma_steps_texts_concat(kept_steps, new_steps, x);
        lemma_steps_texts_without_other(s.steps, rid as int, x);
        lemma_steps_texts_rows_for(rid, r.steps, x);
        assert(steps_texts_of(u.steps, x) =~= steps_texts_of(s.steps, x));
        lemma_ri_of_concat(kept_ri, new_ri, x);
        lemma_ri_of_without_other(s.recipe_ingredients, rid as int, x);
        lemma_ri_of_rows_for(rid, catalog, r.ingredients, x);
        assert(ri_of(u.recipe_ingredients, x) =~= ri_of(s.recipe_ingredients, x));
        assert(iqs_from(u.recipe_ingredients, catalog, x) =~= iqs_from(
            s.recipe_ingredients,
            catalog,
            x,
        ));
        lemma_iqs_catalog_extend(s.recipe_ingredients, s.ingredients, catalog, x);
        assert(assemble_recipe(u, row) =~~= assemble_recipe(s, row));
    }
}

/// No-op update on a missing id: an update whose id matches no persisted
/// recipe succeeds with zero effect, whatever its payload.
pub proof fn lemma_update_missing_noop(s: StoreView, r: RecipeView)
    requires
        r.id is Some,
        !has_recipe_id(s.recipes, r.id.unwrap()),
    ensures
        update_result(s, r) == s,
{
}

/// No-op delete on a missing id: deleting an id that matches no recipes row
/// leaves the whole store exactly as it was — under the foreign keys, no
/// step or join row can reference a recipe that is not there, so every
/// cascade filter is the identity.
pub proof fn lemma_delete_missing_noop(s: StoreView, rid: int)
    requires
        store_wf(s),
        forall|k: int| 0 <= k < s.recipes.len() ==> #[trigger] s.recipes[k].id as int != rid,
    ensures
        delete_result(s, rid) == s,
{
    lemma_recipes_without_noop(s.recipes, rid);
    assert forall|k: int| 0 <= k < s.steps.len() implies #[trigger] s.steps[k].recipe_id as int
        != rid by {
        assert(has_recipe_id(s.recipes, s.steps[k].recipe_id));
        let m = choose|m: int| 0 <= m < s.recipes.len() && s.recipes[m].id == s.steps[k].recipe_id;
        assert(s.recipes[m].id as int != rid);
    }
    lemma_steps_without_noop(s.steps, rid);
    assert forall|k: int|
        0 <= k < s.recipe_ingredients.len() implies #[trigger] s.recipe_ingredients[k].recipe_id
        as int != rid by {
        assert(has_recipe_id(s.recipes, s.recipe_ingredients[k].recipe_id));
        let m = choose|m: int|
            0 <= m < s.recipes.len() && s.recipes[m].id == s.recipe_ingredients[k].recipe_id;
        assert(s.recipes[m].id as int != rid);
    }
    lemma_ri_without_noop(s.recipe_ingredients, rid);
    assert(delete_result(s, rid) =~~= s);
}

} // verus!
