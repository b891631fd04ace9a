//! Facts about the table transformations of [`crate::model`]: what a cascade
//! filter keeps and drops, how the catalog grows, and that every operation
//! preserves the schema's well-formedness.

use vstd::prelude::*;

use crate::model::{
    add_result, catalog_add, catalog_after, catalog_has, catalog_has_id, catalog_id_of,
    catalog_name_of, catalog_wf, delete_result, fresh_recipe_id, has_recipe_id, iqs_from,
    max_recipe_id, recipes_wf, recipes_without, ri_of, ri_rows_for, ri_without, step_rows_for,
    steps_texts_of, steps_without, store_wf, update_result,
};
use crate::recipe::{recipe_valid, IngredientQuantityView, RecipeView};
use crate::tables::{
    IngredientRowView, RecipeIngredientRowView, RecipeRowView, StepRowView, StoreView,
};

verus! {

// ---------------------------------------------------------------------------
// cascade filters
// ---------------------------------------------------------------------------

/// What `recipes_without` leaves: exactly the rows of other ids, order kept,
/// and the primary key stays unique.
pub proof fn lemma_recipes_without_props(rows: Seq<RecipeRowView>, rid: int)
    ensures
        forall|k: int|
            0 <= k < recipes_without(rows, rid).len() ==> #[trigger] recipes_without(rows, rid)[k].id
                as int != rid,
        forall|k: int|
            0 <= k < recipes_without(rows, rid).len() ==> rows.contains(
                #[trigger] recipes_without(rows, rid)[k],
            ),
        recipes_wf(rows) ==> recipes_wf(recipes_without(rows, rid)),
    decreases rows.len(),
{
    if rows.len() == 0 {
    } else {
        let prefix = rows.drop_last();
        lemma_recipes_without_props(prefix, rid);
        assert(forall|k: int| 0 <= k < prefix.len() ==> rows[k] == prefix[k]);
        let res = recipes_without(rows, rid);
        let sub = recipes_without(prefix, rid);
        if rows.last().id as int == rid {
            assert(forall|x: u32|
                has_recipe_id(prefix, x) || (x as int == rid) ==> has_recipe_id(rows, x));
        } else {
            assert(res == sub.push(rows.last()));
            assert(rows.contains(rows.last()));
            if recipes_wf(rows) {
                assert(recipes_wf(sub));
                assert forall|i: int, j: int| 0 <= i < j < res.len() implies res[i].id
                    != res[j].id by {
                    if j < sub.len() {
                        assert(sub[i].id != sub[j].id);
                    } else {
                        assert(res[j] == rows.last());
                        let m = choose|m: int| 0 <= m < prefix.len() && prefix[m] == res[i];
                        assert(rows[m] == res[i]);
                        assert(rows[m].id != rows[rows.len() - 1].id);
                    }
                }
            }
        }
    }
}

/// A recipe id other than the deleted one is present after the cascade
/// exactly when it was present before.
pub proof fn lemma_recipes_without_membership(rows: Seq<RecipeRowView>, rid: int)
    ensures
        forall|x: u32|
            x as int != rid ==> (has_recipe_id(recipes_without(rows, rid), x) <==> has_recipe_id(
                rows,
                x,
            )),
    decreases rows.len(),
{
    if rows.len() == 0 {
    } else {
        let prefix = rows.drop_last();
        lemma_recipes_without_membership(prefix, rid);
        let res = recipes_without(rows, rid);
        let sub = recipes_without(prefix, rid);
        assert(forall|k: int| 0 <= k < prefix.len() ==> rows[k] == prefix[k]);
        assert forall|x: u32| x as int != rid implies (has_recipe_id(res, x) <==> has_recipe_id(
            rows,
            x,
        )) by {
            if rows.last().id as int == rid {
                if has_recipe_id(rows, x) {
                    let m = choose|m: int| 0 <= m < rows.len() && rows[m].id == x;
                    assert(m < rows.len() - 1);
                    assert(prefix[m].id == x);
                    assert(has_recipe_id(prefix, x));
                }
                assert(res == sub);
                if has_recipe_id(sub, x) {
                    assert(has_recipe_id(prefix, x));
                    let m = choose|m: int| 0 <= m < prefix.len() && prefix[m].id == x;
                    assert(rows[m].id == x);
                }
            } else {
                assert(res == sub.push(rows.last()));
                if has_recipe_id(rows, x) {
                    let m = choose|m: int| 0 <= m < rows.len() && rows[m].id == x;
                    if m == rows.len() - 1 {
                        assert(res[res.len() - 1].id == x);
                    } else {
                        assert(prefix[m].id == x);
                        assert(has_recipe_id(prefix, x));
                        let k = choose|k: int| 0 <= k < sub.len() && sub[k].id == x;
                        assert(res[k].id == x);
                    }
                }
                if has_recipe_id(res, x) {
                    let k = choose|k: int| 0 <= k < res.len() && res[k].id == x;
                    if k == res.len() - 1 {
                        assert(rows[rows.len() - 1].id == x);
                    } else {
                        assert(sub[k].id == x);
                        assert(has_recipe_id(prefix, x));
                        let m = choose|m: int| 0 <= m < prefix.len() && prefix[m].id == x;
                        assert(rows[m].id == x);
                    }
                }
            }
        }
    }
}

/// What `steps_without` leaves: exactly the rows of other recipes, order
/// kept, and the composite key stays unique.
pub proof fn lemma_steps_without_props(rows: Seq<StepRowView>, rid: int)
    ensures
        forall|k: int|
            0 <= k < steps_without(rows, rid).len() ==> #[trigger] steps_without(
                rows,
                rid,
            )[k].recipe_id as int != rid,
        forall|k: int|
            0 <= k < steps_without(rows, rid).len() ==> rows.contains(
                #[trigger] steps_without(rows, rid)[k],
            ),
        (forall|i: int, j: int|
            0 <= i < j < rows.len() ==> !(rows[i].recipe_id == rows[j].recipe_id && rows[i].text
                == rows[j].text)) ==> (forall|i: int, j: int|
            0 <= i < j < steps_without(rows, rid).len() ==> !(steps_without(rows, rid)[i].recipe_id
                == steps_without(rows, rid)[j].recipe_id && steps_without(rows, rid)[i].text
                == steps_without(rows, rid)[j].text)),
    decreases rows.len(),
{
    if rows.len() == 0 {
    } else {
        let prefix = rows.drop_last();
        lemma_steps_without_props(prefix, rid);
        assert(forall|k: int| 0 <= k < prefix.len() ==> rows[k] == prefix[k]);
        let res = steps_without(rows, rid);
        let sub = steps_without(prefix, rid);
        if rows.last().recipe_id as int != rid {
            assert(res == sub.push(rows.last()));
            assert(rows.contains(rows.last()));
            if forall|i: int, j: int|
                0 <= i < j < rows.len() ==> !(rows[i].recipe_id == rows[j].recipe_id
                    && rows[i].text == rows[j].text) {
                assert forall|i: int, j: int| 0 <= i < j < res.len() implies !(res[i].recipe_id
                    == res[j].recipe_id && res[i].text == res[j].text) by {
                    if j < sub.len() {
                        assert(!(sub[i].recipe_id == sub[j].recipe_id && sub[i].text
                            == sub[j].text));
                    } else {
                        assert(res[j] == rows.last());
                        let m = choose|m: int| 0 <= m < prefix.len() && prefix[m] == res[i];
                        assert(rows[m] == res[i]);
                        assert(!(rows[m].recipe_id == rows[rows.len() - 1].recipe_id && rows[m].text
                            == rows[rows.len() - 1].text));
                    }
                }
            }
        }
    }
}

/// What `ri_without` leaves: exactly the rows of other recipes, order kept,
/// and the composite key stays unique.
pub proof fn lemma_ri_without_props(rows: Seq<RecipeIngredientRowView>, rid: int)
    ensures
        forall|k: int|
            0 <= k < ri_without(rows, rid).len() ==> #[trigger] ri_without(rows, rid)[k].recipe_id
                as int != rid,
        forall|k: int|
            0 <= k < ri_without(rows, rid).len() ==> rows.contains(
                #[trigger] ri_without(rows, rid)[k],
            ),
        (forall|i: int, j: int|
            0 <= i < j < rows.len() ==> !(rows[i].recipe_id == rows[j].recipe_id
                && rows[i].ingredient_id == rows[j].ingredient_id)) ==> (forall|i: int, j: int|
            0 <= i < j < ri_without(rows, rid).len() ==> !(ri_without(rows, rid)[i].recipe_id
                == ri_without(rows, rid)[j].recipe_id && ri_without(rows, rid)[i].ingredient_id
                == ri_without(rows, rid)[j].ingredient_id)),
    decreases rows.len(),
{
    if rows.len() == 0 {
    } else {
        let prefix = rows.drop_last();
        lemma_ri_without_props(prefix, rid);
        assert(forall|k: int| 0 <= k < prefix.len() ==> rows[k] == prefix[k]);
        let res = ri_without(rows, rid);
        let sub = ri_without(prefix, rid);
        if rows.last().recipe_id as int != rid {
            assert(res == sub.push(rows.last()));
            assert(rows.contains(rows.last()));
            if forall|i: int, j: int|
                0 <= i < j < rows.len() ==> !(rows[i].recipe_id == rows[j].recipe_id
                    && rows[i].ingredient_id == rows[j].ingredient_id) {
                assert forall|i: int, j: int| 0 <= i < j < res.len() implies !(res[i].recipe_id
                    == res[j].recipe_id && res[i].ingredient_id == res[j].ingredient_id) by {
                    if j < sub.len() {
                        assert(!(sub[i].recipe_id == sub[j].recipe_id && sub[i].ingredient_id
                            == sub[j].ingredient_id));
                    } else {
                        assert(res[j] == rows.last());
                        let m = choose|m: int| 0 <= m < prefix.len() && prefix[m] == res[i];
                        assert(rows[m] == res[i]);
                        assert(!(rows[m].recipe_id == rows[rows.len() - 1].recipe_id
                            && rows[m].ingredient_id == rows[rows.len() - 1].ingredient_id));
                    }
                }
            }
        }
    }
}

// ---------------------------------------------------------------------------
// ingredient catalog
// ---------------------------------------------------------------------------

/// In a well-formed catalog, a name found at any row resolves to that row's
/// id.
pub proof fn lemma_catalog_id_at(rows: Seq<IngredientRowView>, i: int)
    requires
        catalog_wf(rows),
        0 <= i < rows.len(),
    ensures
        catalog_id_of(rows, rows[i].name) == rows[i].id,
    decreases rows.len(),
{
    if i == rows.len() - 1 {
    } else {
        assert(rows.last().name !== rows[i].name);
        lemma_catalog_id_at(rows.drop_last(), i);
        assert(rows.drop_last()[i] == rows[i]);
    }
}

/// In a well-formed catalog, resolving a present name gives an id that leads
/// back to exactly that name: the resolve/lookup round trip.
pub proof fn lemma_catalog_resolve(rows: Seq<IngredientRowView>, name: Seq<char>)
    requires
        catalog_wf(rows),
        catalog_has(rows, name),
    ensures
        1 <= catalog_id_of(rows, name) as int <= rows.len(),
        catalog_name_of(rows, catalog_id_of(rows, name)) == name,
        catalog_has_id(rows, catalog_id_of(rows, name)),
{
    let i = choose|i: int| 0 <= i < rows.len() && rows[i].name == name;
    lemma_catalog_id_at(rows, i);
    assert(rows[i].id as int == i + 1);
    assert(rows[catalog_id_of(rows, name) as int - 1].name == name);
}

/// Lazily adding one name keeps the catalog well-formed, only appends, makes
/// the name present, and moves no present name to another id.
pub proof fn lemma_catalog_add_props(rows: Seq<IngredientRowView>, name: Seq<char>)
    requires
        catalog_wf(rows),
        rows.len() < u32::MAX,
    ensures
        catalog_wf(catalog_add(rows, name)),
        rows.len() <= catalog_add(rows, name).len() <= rows.len() + 1,
        forall|k: int| 0 <= k < rows.len() ==> #[trigger] catalog_add(rows, name)[k] == rows[k],
        catalog_has(catalog_add(rows, name), name),
        forall|n: Seq<char>|
            catalog_has(rows, n) ==> #[trigger] catalog_has(catalog_add(rows, name), n),
        forall|n: Seq<char>|
            catalog_has(rows, n) ==> #[trigger] catalog_id_of(catalog_add(rows, name), n)
                == catalog_id_of(rows, n),
        forall|n: Seq<char>|
            #[trigger] catalog_has(catalog_add(rows, name), n) ==> catalog_has(rows, n) || n
                == name,
    decreases rows.len(),
{
    let res = catalog_add(rows, name);
    if catalog_has(rows, name) {
        assert(res == rows);
    } else {
        let added = IngredientRowView { id: (rows.len() + 1) as u32, name: name };
        assert(res == rows.push(added));
        assert(res[rows.len() as int] == added);
        assert(forall|k: int| 0 <= k < rows.len() ==> #[trigger] res[k] == rows[k]);
        assert forall|i: int| 0 <= i < res.len() implies #[trigger] res[i].id as int == i + 1 by {
            if i < rows.len() {
                assert(res[i] == rows[i]);
            } else {
                assert(res[i] == added);
            }
        }
        assert forall|n: Seq<char>| catalog_has(rows, n) implies #[trigger] catalog_has(
            res,
            n,
        ) by {
            let i = choose|i: int| 0 <= i < rows.len() && rows[i].name == n;
            assert(res[i].name == n);
        }
        assert forall|n: Seq<char>| catalog_has(rows, n) implies #[trigger] catalog_id_of(res, n)
            == catalog_id_of(rows, n) by {
            let i = choose|i: int| 0 <= i < rows.len() && rows[i].name == n;
            assert(res[i].name == n);
            if n == name {
                assert(catalog_has(rows, name));
            }
            assert(added.name !== n);
            assert(res.last() == added);
            assert(res.drop_last() =~= rows);
            assert(catalog_id_of(res, n) == catalog_id_of(res.drop_last(), n));
        }
        assert forall|n: Seq<char>| #[trigger] catalog_has(res, n) implies catalog_has(rows, n)
            || n == name by {
            let i = choose|i: int| 0 <= i < res.len() && res[i].name == n;
            if i < rows.len() {
                assert(rows[i].name == n);
            }
        }
        assert forall|i: int, j: int| 0 <= i < j < res.len() implies res[i].name
            !== res[j].name by {
            if j < rows.len() {
                assert(rows[i].name !== rows[j].name);
            } else {
                assert(res[j] == added);
                assert(rows[i].name == res[i].name);
                assert(!catalog_has(rows, name));
                assert(rows[i].name !== name);
            }
        }
    }
}

/// Resolving a whole pass of ingredient references keeps the catalog
/// well-formed, only appends, makes every referenced name present, moves no
/// present name, and adds nothing that the pass did not reference.
pub proof fn lemma_catalog_after_props(
    rows: Seq<IngredientRowView>,
    iqs: Seq<IngredientQuantityView>,
)
    requires
        catalog_wf(rows),
        rows.len() + iqs.len() <= u32::MAX,
    ensures
        catalog_wf(catalog_after(rows, iqs)),
        rows.len() <= catalog_after(rows, iqs).len() <= rows.len() + iqs.len(),
        forall|k: int| 0 <= k < rows.len() ==> #[trigger] catalog_after(rows, iqs)[k] == rows[k],
        forall|j: int|
            0 <= j < iqs.len() ==> catalog_has(
                catalog_after(rows, iqs),
                #[trigger] iqs[j].ingredient,
            ),
        forall|n: Seq<char>|
            catalog_has(rows, n) ==> #[trigger] catalog_has(catalog_after(rows, iqs), n),
        forall|n: Seq<char>|
            catalog_has(rows, n) ==> #[trigger] catalog_id_of(catalog_after(rows, iqs), n)
                == catalog_id_of(rows, n),
        forall|n: Seq<char>|
            #[trigger] catalog_has(catalog_after(rows, iqs), n) ==> catalog_has(rows, n) || exists|
                j: int,
            | 0 <= j < iqs.len() && iqs[j].ingredient == n,
    decreases iqs.len(),
{
    if iqs.len() == 0 {
    } else {
        let prefix = iqs.drop_last();
        lemma_catalog_after_props(rows, prefix);
        let mid = catalog_after(rows, prefix);
        lemma_catalog_add_props(mid, iqs.last().ingredient);
        let res = catalog_after(rows, iqs);
        assert(res == catalog_add(mid, iqs.last().ingredient));
        assert(forall|k: int| 0 <= k < prefix.len() ==> prefix[k] == iqs[k]);
        assert forall|j: int| 0 <= j < iqs.len() implies catalog_has(
            res,
            #[trigger] iqs[j].ingredient,
        ) by {
            if j < iqs.len() - 1 {
                assert(catalog_has(mid, prefix[j].ingredient));
            }
        }
        assert forall|n: Seq<char>| #[trigger] catalog_has(res, n) implies catalog_has(rows, n)
            || exists|j: int| 0 <= j < iqs.len() && iqs[j].ingredient == n by {
            if n !== iqs.last().ingredient {
                assert(catalog_has(mid, n));
                if !catalog_has(rows, n) {
                    let j = choose|j: int| 0 <= j < prefix.len() && prefix[j].ingredient == n;
                    assert(iqs[j].ingredient == n);
                }
            } else {
                assert(iqs[iqs.len() - 1].ingredient == n);
            }
        }
    }
}

// ---------------------------------------------------------------------------
// filters that match nothing
// ---------------------------------------------------------------------------

/// Filtering an id that no recipes row carries changes nothing.
pub proof fn lemma_recipes_without_noop(rows: Seq<RecipeRowView>, rid: int)
    requires
        forall|k: int| 0 <= k < rows.len() ==> #[trigger] rows[k].id as int != rid,
    ensures
        recipes_without(rows, rid) == rows,
    decreases rows.len(),
{
    if rows.len() == 0 {
        assert(recipes_without(rows, rid) =~= rows);
    } else {
        let prefix = rows.drop_last();
        assert(forall|k: int| 0 <= k < prefix.len() ==> #[trigger] prefix[k] == rows[k]);
        lemma_recipes_without_noop(prefix, rid);
        assert(recipes_without(rows, rid) =~= rows);
    }
}

/// Filtering a recipe id that no steps row carries changes nothing.
pub proof fn lemma_steps_without_noop(rows: Seq<StepRowView>, rid: int)
    requires
        forall|k: int| 0 <= k < rows.len() ==> #[trigger] rows[k].recipe_id as int != rid,
    ensures
        steps_without(rows, rid) == rows,
    decreases rows.len(),
{
    if rows.len() == 0 {
        assert(steps_without(rows, rid) =~= rows);
    } else {
        let prefix = rows.drop_last();
        assert(forall|k: int| 0 <= k < prefix.len() ==> #[trigger] prefix[k] == rows[k]);
        lemma_steps_without_noop(prefix, rid);
        assert(steps_without(rows, rid) =~= rows);
    }
}

/// Filtering a recipe id that no join row carries changes nothing.
pub proof fn lemma_ri_without_noop(rows: Seq<RecipeIngredientRowView>, rid: int)
    requires
        forall|k: int| 0 <= k < rows.len() ==> #[trigger] rows[k].recipe_id as int != rid,
    ensures
        ri_without(rows, rid) == rows,
    decreases rows.len(),
{
    if rows.len() == 0 {
        assert(ri_without(rows, rid) =~= rows);
    } else {
        let prefix = rows.drop_last();
        assert(forall|k: int| 0 <= k < prefix.len() ==> #[trigger] prefix[k] == rows[k]);
        lemma_ri_without_noop(prefix, rid);
        assert(ri_without(rows, rid) =~= rows);
    }
}

// ---------------------------------------------------------------------------
// fresh recipe ids
// ---------------------------------------------------------------------------

/// The maximum id is nonnegative and bounds every id in the table.
pub proof fn lemma_max_recipe_id_bound(rows: Seq<RecipeRowView>)
    ensures
        max_recipe_id(rows) >= 0,
        forall|k: int| 0 <= k < rows.len() ==> #[trigger] rows[k].id as int <= max_recipe_id(rows),
    decreases rows.len(),
{
    if rows.len() == 0 {
    } else {
        lemma_max_recipe_id_bound(rows.drop_last());
        assert(forall|k: int|
            0 <= k < rows.len() - 1 ==> #[trigger] rows[k] == rows.drop_last()[k]);
    }
}

// ---------------------------------------------------------------------------
// join rows against a grown catalog
// ---------------------------------------------------------------------------

/// Join rows are unchanged by growing the catalog, as long as every
/// referenced name was already present and kept its id.
pub proof fn lemma_ri_rows_for_extend(
    rid: u32,
    c1: Seq<IngredientRowView>,
    c2: Seq<IngredientRowView>,
    iqs: Seq<IngredientQuantityView>,
)
    requires
        forall|j: int| 0 <= j < iqs.len() ==> catalog_has(c1, #[trigger] iqs[j].ingredient),
        forall|n: Seq<char>|
            catalog_has(c1, n) ==> #[trigger] catalog_id_of(c2, n) == catalog_id_of(c1, n),
    ensures
        ri_rows_for(rid, c2, iqs) == ri_rows_for(rid, c1, iqs),
{
    assert forall|j: int| 0 <= j < iqs.len() implies #[trigger] ri_rows_for(rid, c2, iqs)[j]
        == ri_rows_for(rid, c1, iqs)[j] by {
        assert(catalog_has(c1, iqs[j].ingredient));
        assert(catalog_id_of(c2, iqs[j].ingredient) == catalog_id_of(c1, iqs[j].ingredient));
    }
    assert(ri_rows_for(rid, c2, iqs) =~= ri_rows_for(rid, c1, iqs));
}

// ---------------------------------------------------------------------------
// projections of the dependent tables
// ---------------------------------------------------------------------------

/// A recipe's step texts in a concatenation: the texts of the first part,
/// then the texts of the second.
pub proof fn lemma_steps_texts_concat(a: Seq<StepRowView>, b: Seq<StepRowView>, x: int)
    ensures
        steps_texts_of(a + b, x) == steps_texts_of(a, x) + steps_texts_of(b, x),
    decreases b.len(),
{
    if b.len() == 0 {
        assert(a + b =~= a);
        assert(steps_texts_of(a, x) + steps_texts_of(b, x) =~= steps_texts_of(a, x));
    } else {
        lemma_steps_texts_concat(a, b.drop_last(), x);
        assert((a + b).drop_last() =~= a + b.drop_last());
        assert((a + b).last() == b.last());
        if b.last().recipe_id as int == x {
            assert(steps_texts_of(a, x) + steps_texts_of(b, x) =~= (steps_texts_of(a, x)
                + steps_texts_of(b.drop_last(), x)).push(b.last().text));
        }
    }
}

/// Rows that all belong to other recipes contribute no step text.
pub proof fn lemma_steps_texts_none(rows: Seq<StepRowView>, x: int)
    requires
        forall|k: int| 0 <= k < rows.len() ==> #[trigger] rows[k].recipe_id as int != x,
    ensures
        steps_texts_of(rows, x) == Seq::<Seq<char>>::empty(),
    decreases rows.len(),
{
    if rows.len() == 0 {
    } else {
        let prefix = rows.drop_last();
        assert(forall|k: int| 0 <= k < prefix.len() ==> #[trigger] prefix[k] == rows[k]);
        lemma_steps_texts_none(prefix, x);
    }
}

/// The texts of one insert pass project back to exactly the inserted texts
/// for that recipe, and to nothing for any other.
pub proof fn lemma_steps_texts_rows_for(rid: u32, texts: Seq<Seq<char>>, x: int)
    ensures
        rid as int == x ==> steps_texts_of(step_rows_for(rid, texts), x) == texts,
        rid as int != x ==> steps_texts_of(step_rows_for(rid, texts), x) == Seq::<
            Seq<char>,
        >::empty(),
    decreases texts.len(),
{
    let rows = step_rows_for(rid, texts);
    if texts.len() == 0 {
        assert(rows =~= Seq::<StepRowView>::empty());
        if rid as int == x {
            assert(steps_texts_of(rows, x) =~= texts);
        }
    } else {
        lemma_steps_texts_rows_for(rid, texts.drop_last(), x);
        assert(rows.drop_last() =~= step_rows_for(rid, texts.drop_last()));
        assert(rows.last() == StepRowView { recipe_id: rid, text: texts.last() });
        if rid as int == x {
            assert(steps_texts_of(rows, x) =~= texts);
        }
    }
}

/// Filtering one recipe out does not change another recipe's step texts.
pub proof fn lemma_steps_texts_without_other(rows: Seq<StepRowView>, rid: int, x: int)
    requires
        x != rid,
    ensures
        steps_texts_of(steps_without(rows, rid), x) == steps_texts_of(rows, x),
    decreases rows.len(),
{
    if rows.len() == 0 {
    } else {
        let prefix = rows.drop_last();
        lemma_steps_texts_without_other(prefix, rid, x);
        if rows.last().recipe_id as int != rid {
            assert(steps_without(rows, rid) == steps_without(prefix, rid).push(rows.last()));
            assert(steps_without(rows, rid).drop_last() =~= steps_without(prefix, rid));
            assert(steps_without(rows, rid).last() == rows.last());
        }
    }
}

/// What `ri_of` selects: exactly the rows of this recipe, in order.
pub proof fn lemma_ri_of_props(rows: Seq<RecipeIngredientRowView>, x: int)
    ensures
        forall|k: int|
            0 <= k < ri_of(rows, x).len() ==> #[trigger] ri_of(rows, x)[k].recipe_id as int == x,
        forall|k: int|
            0 <= k < ri_of(rows, x).len() ==> rows.contains(#[trigger] ri_of(rows, x)[k]),
    decreases rows.len(),
{
    if rows.len() == 0 {
    } else {
        let prefix = rows.drop_last();
        lemma_ri_of_props(prefix, x);
        assert(forall|k: int| 0 <= k < prefix.len() ==> #[trigger] rows[k] == prefix[k]);
        let res = ri_of(rows, x);
        let sub = ri_of(prefix, x);
        assert forall|k: int| 0 <= k < res.len() implies #[trigger] res[k].recipe_id as int
            == x by {
            if rows.last().recipe_id as int == x && k == res.len() - 1 {
                assert(res[k] == rows.last());
            } else {
                assert(res[k] == sub[k]);
            }
        }
        assert forall|k: int| 0 <= k < res.len() implies rows.contains(#[trigger] res[k]) by {
            if rows.last().recipe_id as int == x && k == res.len() - 1 {
                assert(res[k] == rows.last());
                assert(rows[rows.len() - 1] == res[k]);
            } else {
                assert(res[k] == sub[k]);
                assert(prefix.contains(sub[k]));
                let m = choose|m: int| 0 <= m < prefix.len() && prefix[m] == sub[k];
                assert(rows[m] == sub[k]);
            }
        }
    }
}

/// A recipe's join rows in a concatenation: the rows of the first part,
/// then the rows of the second.
pub proof fn lemma_ri_of_concat(
    a: Seq<RecipeIngredientRowView>,
    b: Seq<RecipeIngredientRowView>,
    x: int,
)
    ensures
        ri_of(a + b, x) == ri_of(a, x) + ri_of(b, x),
    decreases b.len(),
{
    if b.len() == 0 {
        assert(a + b =~= a);
        assert(ri_of(a, x) + ri_of(b, x) =~= ri_of(a, x));
    } else {
        lemma_ri_of_concat(a, b.drop_last(), x);
        assert((a + b).drop_last() =~= a + b.drop_last());
        assert((a + b).last() == b.last());
        if b.last().recipe_id as int == x {
            assert(ri_of(a, x) + ri_of(b, x) =~= (ri_of(a, x) + ri_of(b.drop_last(), x)).push(
                b.last(),
            ));
        }
    }
}

/// Rows that all belong to other recipes contribute no join row.
pub proof fn lemma_ri_of_none(rows: Seq<RecipeIngredientRowView>, x: int)
    requires
        forall|k: int| 0 <= k < rows.len() ==> #[trigger] rows[k].recipe_id as int != x,
    ensures
        ri_of(rows, x) == Seq::<RecipeIngredientRowView>::empty(),
    decreases rows.len(),
{
    if rows.len() == 0 {
        assert(ri_of(rows, x) =~= Seq::<RecipeIngredientRowView>::empty());
    } else {
        let prefix = rows.drop_last();
        assert(forall|k: int| 0 <= k < prefix.len() ==> #[trigger] prefix[k] == rows[k]);
        lemma_ri_of_none(prefix, x);
    }
}

/// The join rows of one insert pass project back to exactly the inserted
/// rows for that recipe, and to nothing for any other.
pub proof fn lemma_ri_of_rows_for(
    rid: u32,
    catalog: Seq<IngredientRowView>,
    iqs: Seq<IngredientQuantityView>,
    x: int,
)
    ensures
        rid as int == x ==> ri_of(ri_rows_for(rid, catalog, iqs), x) == ri_rows_for(
            rid,
            catalog,
            iqs,
        ),
        rid as int != x ==> ri_of(ri_rows_for(rid, catalog, iqs), x) == Seq::<
            RecipeIngredientRowView,
        >::empty(),
    decreases iqs.len(),
{
    let rows = ri_rows_for(rid, catalog, iqs);
    if iqs.len() == 0 {
        assert(rows =~= Seq::<RecipeIngredientRowView>::empty());
        if rid as int == x {
            assert(ri_of(rows, x) =~= rows);
        }
    } else {
        lemma_ri_of_rows_for(rid, catalog, iqs.drop_last(), x);
        assert(rows.drop_last() =~= ri_rows_for(rid, catalog, iqs.drop_last()));
        if rid as int == x {
            assert(ri_of(rows, x) =~= rows);
        }
    }
}

/// Filtering one recipe out does not change another recipe's join rows.
pub proof fn lemma_ri_of_without_other(rows: Seq<RecipeIngredientRowView>, rid: int, x: int)
    requires
        x != rid,
    ensures
        ri_of(ri_without(rows, rid), x) == ri_of(rows, x),
    decreases rows.len(),
{
    if rows.len() == 0 {
    } else {
        let prefix = rows.drop_last();
        lemma_ri_of_without_other(prefix, rid, x);
        if rows.last().recipe_id as int != rid {
            assert(ri_without(rows, rid) == ri_without(prefix, rid).push(rows.last()));
            assert(ri_without(rows, rid).drop_last() =~= ri_without(prefix, rid));
            assert(ri_without(rows, rid).last() == rows.last());
        }
    }
}

/// Growing the catalog does not change what a recipe's join rows assemble
/// to, as long as every referenced id keeps its row.
pub proof fn lemma_iqs_catalog_extend(
    rows: Seq<RecipeIngredientRowView>,
    c1: Seq<IngredientRowView>,
    c2: Seq<IngredientRowView>,
    x: int,
)
    requires
        catalog_wf(c1),
        c1.len() <= c2.len(),
        forall|k: int| 0 <= k < c1.len() ==> #[trigger] c2[k] == c1[k],
        forall|k: int|
            0 <= k < rows.len() ==> catalog_has_id(c1, #[trigger] rows[k].ingredient_id),
    ensures
        iqs_from(rows, c2, x) == iqs_from(rows, c1, x),
{
    lemma_ri_of_props(rows, x);
    let sel = ri_of(rows, x);
    assert forall|k: int| 0 <= k < sel.len() implies #[trigger] iqs_from(rows, c2, x)[k]
        == iqs_from(rows, c1, x)[k] by {
        assert(rows.contains(sel[k]));
        let m = choose|m: int| 0 <= m < rows.len() && rows[m] == sel[k];
        assert(catalog_has_id(c1, rows[m].ingredient_id));
        let p = choose|p: int| 0 <= p < c1.len() && c1[p].id == sel[k].ingredient_id;
        assert(c1[p].id as int == p + 1);
        assert(c2[sel[k].ingredient_id as int - 1] == c1[sel[k].ingredient_id as int - 1]);
        assert(catalog_name_of(c2, sel[k].ingredient_id) == catalog_name_of(
            c1,
            sel[k].ingredient_id,
        ));
    }
    assert(iqs_from(rows, c2, x) =~= iqs_from(rows, c1, x));
}

// ---------------------------------------------------------------------------
// operations preserve well-formedness
// ---------------------------------------------------------------------------

/// A committed add leaves all four tables well-formed: the fresh id is new,
/// the appended step and join rows keep their composite keys unique (the
/// recipe was valid), every appended row finds its parents, and the catalog
/// grows lazily.
pub proof fn lemma_add_preserves_wf(s: StoreView, r: RecipeView)
    requires
        store_wf(s),
        recipe_valid(r),
        fresh_recipe_id(s) <= u32::MAX,
        s.ingredients.len() + r.ingredients.len() <= u32::MAX,
    ensures
        store_wf(add_result(s, r)),
        has_recipe_id(add_result(s, r).recipes, fresh_recipe_id(s) as u32),
{
    let a = add_result(s, r);
    let rid = fresh_recipe_id(s) as u32;
    let catalog = catalog_after(s.ingredients, r.ingredients);
    lemma_max_recipe_id_bound(s.recipes);
    lemma_catalog_after_props(s.ingredients, r.ingredients);

    // recipes: the fresh id tops every existing id, so keys stay unique.
    let new_row = RecipeRowView { id: rid, name: r.name, desc: r.desc };
    assert(a.recipes == s.recipes.push(new_row));
    assert(a.recipes[s.recipes.len() as int] == new_row);
    assert(forall|k: int| 0 <= k < s.recipes.len() ==> #[trigger] a.recipes[k] == s.recipes[k]);
    assert(has_recipe_id(a.recipes, rid));
    assert forall|i: int, j: int| 0 <= i < j < a.recipes.len() implies a.recipes[i].id
        != a.recipes[j].id by {
        if j < s.recipes.len() {
            assert(s.recipes[i].id != s.recipes[j].id);
        } else {
            assert(a.recipes[j] == new_row);
            assert(s.recipes[i].id as int <= max_recipe_id(s.recipes));
        }
    }
    assert forall|i: int| 0 <= i < a.recipes.len() implies #[trigger] a.recipes[i].id >= 1 by {
        if i < s.recipes.len() {
            assert(s.recipes[i].id >= 1);
        } else {
            assert(a.recipes[i] == new_row);
        }
    }
    assert forall|x: u32| has_recipe_id(s.recipes, x) implies #[trigger] has_recipe_id(
        a.recipes,
        x,
    ) by {
        let m = choose|m: int| 0 <= m < s.recipes.len() && s.recipes[m].id == x;
        assert(a.recipes[m].id == x);
    }

    // steps: old rows reference old recipes; appended rows reference the
    // fresh one and carry pairwise distinct texts.
    let new_steps = step_rows_for(rid, r.steps);
    assert(forall|k: int| 0 <= k < s.steps.len() ==> #[trigger] a.steps[k] == s.steps[k]);
    assert(forall|k: int|
        0 <= k < new_steps.len() ==> #[trigger] a.steps[s.steps.len() + k] == new_steps[k]);
    assert forall|i: int, j: int| 0 <= i < j < a.steps.len() implies !(a.steps[i].recipe_id
        == a.steps[j].recipe_id && a.steps[i].text == a.steps[j].text) by {
        if j < s.steps.len() {
            assert(!(s.steps[i].recipe_id == s.steps[j].recipe_id && s.steps[i].text
                == s.steps[j].text));
        } else if i >= s.steps.len() {
            assert(r.steps[i - s.steps.len()] !== r.steps[j - s.steps.len()]);
        } else {
            // an old row cannot reference the fresh id
            assert(has_recipe_id(s.recipes, s.steps[i].recipe_id));
            let m = choose|m: int|
                0 <= m < s.recipes.len() && s.recipes[m].id == s.steps[i].recipe_id;
            assert(s.recipes[m].id as int <= max_recipe_id(s.recipes));
            assert(a.steps[j].recipe_id == rid);
        }
    }
    assert forall|i: int| 0 <= i < a.steps.len() implies has_recipe_id(
        a.recipes,
        #[trigger] a.steps[i].recipe_id,
    ) by {
        if i < s.steps.len() {
            assert(has_recipe_id(s.recipes, s.steps[i].recipe_id));
        } else {
            assert(a.steps[i].recipe_id == rid);
        }
    }

    // join rows: distinct names resolve to distinct present ids.
    let new_ri = ri_rows_for(rid, catalog, r.ingredients);
    assert(forall|k: int|
        0 <= k < s.recipe_ingredients.len() ==> #[trigger] a.recipe_ingredients[k]
            == s.recipe_ingredients[k]);
    assert(forall|k: int|
        0 <= k < new_ri.len() ==> #[trigger] a.recipe_ingredients[s.recipe_ingredients.len() + k]
            == new_ri[k]);
    assert forall|i: int, j: int| 0 <= i < j < a.recipe_ingredients.len() implies !(
    a.recipe_ingredients[i].recipe_id == a.recipe_ingredients[j].recipe_id
        && a.recipe_ingredients[i].ingredient_id == a.recipe_ingredients[j].ingredient_id) by {
        if j < s.recipe_ingredients.len() {
            assert(!(s.recipe_ingredients[i].recipe_id == s.recipe_ingredients[j].recipe_id
                && s.recipe_ingredients[i].ingredient_id
                == s.recipe_ingredients[j].ingredient_id));
        } else if i >= s.recipe_ingredients.len() {
            let ni = r.ingredients[i - s.recipe_ingredients.len()].ingredient;
            let nj = r.ingredients[j - s.recipe_ingredients.len()].ingredient;
            assert(ni !== nj);
            assert(catalog_has(catalog, ni));
            assert(catalog_has(catalog, nj));
            lemma_catalog_resolve(catalog, ni);
            lemma_catalog_resolve(catalog, nj);
            assert(a.recipe_ingredients[i].ingredient_id == catalog_id_of(catalog, ni));
            assert(a.recipe_ingredients[j].ingredient_id == catalog_id_of(catalog, nj));
        } else {
            assert(has_recipe_id(s.recipes, s.recipe_ingredients[i].recipe_id));
            let m = choose|m: int|
                0 <= m < s.recipes.len() && s.recipes[m].id == s.recipe_ingredients[i].recipe_id;
            assert(s.recipes[m].id as int <= max_recipe_id(s.recipes));
            assert(a.recipe_ingredients[j].recipe_id == rid);
        }
    }
    assert forall|i: int| 0 <= i < a.recipe_ingredients.len() implies has_recipe_id(
        a.recipes,
        #[trigger] a.recipe_ingredients[i].recipe_id,
    ) by {
        if i < s.recipe_ingredients.len() {
            assert(has_recipe_id(s.recipes, s.recipe_ingredients[i].recipe_id));
        } else {
            assert(a.recipe_ingredients[i].recipe_id == rid);
        }
    }
    assert forall|i: int| 0 <= i < a.recipe_ingredients.len() implies catalog_has_id(
        a.ingredients,
        #[trigger] a.recipe_ingredients[i].ingredient_id,
    ) by {
        if i < s.recipe_ingredients.len() {
            assert(catalog_has_id(s.ingredients, s.recipe_ingredients[i].ingredient_id));
            let m = choose|m: int|
                0 <= m < s.ingredients.len() && s.ingredients[m].id
                    == s.recipe_ingredients[i].ingredient_id;
            assert(catalog[m] == s.ingredients[m]);
            assert(catalog_has_id(catalog, s.recipe_ingredients[i].ingredient_id));
        } else {
            let n = r.ingredients[i - s.recipe_ingredients.len()].ingredient;
            assert(catalog_has(catalog, n));
            lemma_catalog_resolve(catalog, n);
            assert(a.recipe_ingredients[i].ingredient_id == catalog_id_of(catalog, n));
        }
    }
}

/// A committed update leaves all four tables well-formed: the root row keeps
/// its id, the replaced step and join rows keep their composite keys unique
/// (the recipe was valid, and everything kept belongs to other recipes), and
/// every row still finds its parents.
pub proof fn lemma_update_preserves_wf(s: StoreView, r: RecipeView)
    requires
        store_wf(s),
        recipe_valid(r),
        r.id is Some,
        s.ingredients.len() + r.ingredients.len() <= u32::MAX,
    ensures
        store_wf(update_result(s, r)),
{
    let rid = r.id.unwrap();
    if !has_recipe_id(s.recipes, rid) {
    } else {
        let u = update_result(s, r);
        let catalog = catalog_after(s.ingredients, r.ingredients);
        lemma_catalog_after_props(s.ingredients, r.ingredients);
        lemma_steps_without_props(s.steps, rid as int);
        lemma_ri_without_props(s.recipe_ingredients, rid as int);

        // recipes: every row keeps its id and its position.
        assert(forall|k: int|
            0 <= k < u.recipes.len() ==> #[trigger] u.recipes[k].id == s.recipes[k].id);
        assert forall|x: u32| has_recipe_id(s.recipes, x) implies #[trigger] has_recipe_id(
            u.recipes,
            x,
        ) by {
            let m = choose|m: int| 0 <= m < s.recipes.len() && s.recipes[m].id == x;
            assert(u.recipes[m].id == x);
        }

        // steps: kept rows belong to other recipes, appended rows to this one.
        let kept_steps = steps_without(s.steps, rid as int);
        let new_steps = step_rows_for(rid, r.steps);
        assert(u.steps == kept_steps + new_steps);
        assert(forall|k: int|
            0 <= k < kept_steps.len() ==> #[trigger] u.steps[k] == kept_steps[k]);
        assert(forall|k: int|
            0 <= k < new_steps.len() ==> #[trigger] u.steps[kept_steps.len() + k]
                == new_steps[k]);
        assert forall|i: int, j: int| 0 <= i < j < u.steps.len() implies !(u.steps[i].recipe_id
            == u.steps[j].recipe_id && u.steps[i].text == u.steps[j].text) by {
            if j < kept_steps.len() {
                assert(!(kept_steps[i].recipe_id == kept_steps[j].recipe_id && kept_steps[i].text
                    == kept_steps[j].text));
            } else if i >= kept_steps.len() {
                assert(r.steps[i - kept_steps.len()] !== r.steps[j - kept_steps.len()]);
            } else {
                assert(kept_steps[i].recipe_id as int != rid as int);
                assert(u.steps[j].recipe_id == rid);
            }
        }
        assert forall|i: int| 0 <= i < u.steps.len() implies has_recipe_id(
            u.recipes,
            #[trigger] u.steps[i].recipe_id,
        ) by {
            if i < kept_steps.len() {
                assert(s.steps.contains(kept_steps[i]));
                let m = choose|m: int| 0 <= m < s.steps.len() && s.steps[m] == kept_steps[i];
                assert(has_recipe_id(s.recipes, s.steps[m].recipe_id));
            } else {
                assert(u.steps[i].recipe_id == rid);
            }
        }

        // join rows: kept rows belong to other recipes; appended rows carry
        // this recipe's id and pairwise distinct resolved ingredient ids.
        let kept_ri = ri_without(s.recipe_ingredients, rid as int);
        let new_ri = ri_rows_for(rid, catalog, r.ingredients);
        assert(u.recipe_ingredients == kept_ri + new_ri);
        assert(forall|k: int|
            0 <= k < kept_ri.len() ==> #[trigger] u.recipe_ingredients[k] == kept_ri[k]);
        assert(forall|k: int|
            0 <= k < new_ri.len() ==> #[trigger] u.recipe_ingredients[kept_ri.len() + k]
                == new_ri[k]);
        assert forall|i: int, j: int| 0 <= i < j < u.recipe_ingredients.len() implies !(
        u.recipe_ingredients[i].recipe_id == u.recipe_ingredients[j].recipe_id
            && u.recipe_ingredients[i].ingredient_id
            == u.recipe_ingredients[j].ingredient_id) by {
            if j < kept_ri.len() {
                assert(!(kept_ri[i].recipe_id == kept_ri[j].recipe_id && kept_ri[i].ingredient_id
                    == kept_ri[j].ingredient_id));
            } else if i >= kept_ri.len() {
                let ni = r.ingredients[i - kept_ri.len()].ingredient;
                let nj = r.ingredients[j - kept_ri.len()].ingredient;
                assert(ni !== nj);
                assert(catalog_has(catalog, ni));
                assert(catalog_has(catalog, nj));
                lemma_catalog_resolve(catalog, ni);
                lemma_catalog_resolve(catalog, nj);
                assert(u.recipe_ingredients[i].ingredient_id == catalog_id_of(catalog, ni));
                assert(u.recipe_ingredients[j].ingredient_id == catalog_id_of(catalog, nj));
            } else {
                assert(kept_ri[i].recipe_id as int != rid as int);
                assert(u.recipe_ingredients[j].recipe_id == rid);
            }
        }
        assert forall|i: int| 0 <= i < u.recipe_ingredients.len() implies has_recipe_id(
            u.recipes,
            #[trigger] u.recipe_ingredients[i].recipe_id,
        ) by {
            if i < kept_ri.len() {
                assert(s.recipe_ingredients.contains(kept_ri[i]));
                let m = choose|m: int|
                    0 <= m < s.recipe_ingredients.len() && s.recipe_ingredients[m] == kept_ri[i];
                assert(has_recipe_id(s.recipes, s.recipe_ingredients[m].recipe_id));
            } else {
                assert(u.recipe_ingredients[i].recipe_id == rid);
            }
        }
        assert forall|i: int| 0 <= i < u.recipe_ingredients.len() implies catalog_has_id(
            u.ingredients,
            #[trigger] u.recipe_ingredients[i].ingredient_id,
        ) by {
            if i < kept_ri.len() {
                assert(s.recipe_ingredients.contains(kept_ri[i]));
                let m = choose|m: int|
                    0 <= m < s.recipe_ingredients.len() && s.recipe_ingredients[m] == kept_ri[i];
                assert(catalog_has_id(s.ingredients, s.recipe_ingredients[m].ingredient_id));
                let p = choose|p: int|
                    0 <= p < s.ingredients.len() && s.ingredients[p].id
                        == s.recipe_ingredients[m].ingredient_id;
                assert(catalog[p] == s.ingredients[p]);
                assert(catalog_has_id(catalog, s.recipe_ingredients[m].ingredient_id));
            } else {
                let n = r.ingredients[i - kept_ri.len()].ingredient;
                assert(catalog_has(catalog, n));
                lemma_catalog_resolve(catalog, n);
                assert(u.recipe_ingredients[i].ingredient_id == catalog_id_of(catalog, n));
            }
        }
    }
}

/// A committed delete leaves all four tables well-formed: filtered keys stay
/// unique, and every kept dependent row still finds its parents.
pub proof fn lemma_delete_preserves_wf(s: StoreView, rid: int)
    requires
        store_wf(s),
    ensures
        store_wf(delete_result(s, rid)),
{
    lemma_recipes_without_props(s.recipes, rid);
    lemma_recipes_without_membership(s.recipes, rid);
    lemma_steps_without_props(s.steps, rid);
    lemma_ri_without_props(s.recipe_ingredients, rid);
    let d = delete_result(s, rid);
    assert forall|k: int| 0 <= k < d.steps.len() implies has_recipe_id(
        d.recipes,
        #[trigger] d.steps[k].recipe_id,
    ) by {
        let r = d.steps[k];
        assert(s.steps.contains(r));
        let m = choose|m: int| 0 <= m < s.steps.len() && s.steps[m] == r;
        assert(has_recipe_id(s.recipes, s.steps[m].recipe_id));
        assert(r.recipe_id as int != rid);
    }
    assert forall|k: int| 0 <= k < d.recipe_ingredients.len() implies has_recipe_id(
        d.recipes,
        #[trigger] d.recipe_ingredients[k].recipe_id,
    ) && catalog_has_id(d.ingredients, d.recipe_ingredients[k].ingredient_id) by {
        let r = d.recipe_ingredients[k];
        assert(s.recipe_ingredients.contains(r));
        let m = choose|m: int|
            0 <= m < s.recipe_ingredients.len() && s.recipe_ingredients[m] == r;
        assert(has_recipe_id(s.recipes, s.recipe_ingredients[m].recipe_id));
        assert(catalog_has_id(s.ingredients, s.recipe_ingredients[m].ingredient_id));
        assert(r.recipe_id as int != rid);
    }
}

} // verus!
