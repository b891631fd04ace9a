use recipe_book_backend::recipe::{IngredientQuantity, Quantity, Recipe};
use recipe_book_backend::repo::RecipeRepo;
use recipe_book_backend::RepoError;

fn sample_recipe() -> Recipe {
    Recipe {
        id: Some(1),
        name: "Test Recipe".to_string(),
        desc: Some("Test Description".to_string()),
        steps: vec!["Step 1".to_string()],
        ingredients: vec![IngredientQuantity {
            ingredient: "Potato".to_string(),
            quantity: Quantity {
                value_bits: 1.0f64.to_bits(),
                unit: "whole".to_string(),
            },
        }],
    }
}

#[test]
fn test_add() {
    let mut repo = RecipeRepo::new();

    let recipe = sample_recipe();

    assert_eq!(Vec::<Recipe>::new(), repo.load_recipes().unwrap());
    repo.add_recipe(&recipe).unwrap();
    assert_eq!(vec![recipe.clone()], repo.load_recipes().unwrap());

    let recipe_2 = Recipe {
        id: Some(2),
        ..recipe.clone()
    };

    repo.add_recipe(&recipe_2).unwrap();
    assert_eq!(vec![recipe, recipe_2], repo.load_recipes().unwrap());
}

#[test]
fn test_delete() {
    let mut repo = RecipeRepo::new();

    let recipe = sample_recipe();

    assert_eq!(Vec::<Recipe>::new(), repo.load_recipes().unwrap());
    repo.add_recipe(&recipe).unwrap();
    assert_eq!(vec![recipe.clone()], repo.load_recipes().unwrap());

    repo.delete_recipe(1).unwrap();
    assert_eq!(Vec::<Recipe>::new(), repo.load_recipes().unwrap());
}

#[test]
fn test_update() {
    let mut repo = RecipeRepo::new();

    let recipe = sample_recipe();

    assert_eq!(Vec::<Recipe>::new(), repo.load_recipes().unwrap());
    repo.add_recipe(&recipe).unwrap();
    assert_eq!(vec![recipe.clone()], repo.load_recipes().unwrap());

    let recipe_2 = Recipe {
        steps: vec![],
        ..recipe.clone()
    };

    repo.update_recipe(&recipe_2).unwrap();
    assert_eq!(vec![recipe_2], repo.load_recipes().unwrap());
}

// Literal scenario: two identical adds get ids 1 and 2, the catalog holds a
// single "Potato" row, and both join rows reference it.
#[test]
fn two_identical_adds_share_one_catalog_row() {
    let mut repo = RecipeRepo::new();
    let recipe = sample_recipe();

    repo.add_recipe(&recipe).unwrap();
    let loaded = repo.load_recipes().unwrap();
    assert_eq!(vec![recipe.clone()], loaded);
    assert_eq!(Some(1), loaded[0].id);

    repo.add_recipe(&recipe).unwrap();
    let loaded = repo.load_recipes().unwrap();
    assert_eq!(2, loaded.len());
    assert_eq!(Some(1), loaded[0].id);
    assert_eq!(Some(2), loaded[1].id);
    assert_eq!(loaded[0].name, loaded[1].name);
    assert_eq!(loaded[0].ingredients, loaded[1].ingredients);

    let potato_rows: Vec<_> = repo
        .ingredients
        .iter()
        .filter(|row| row.name == "Potato")
        .collect();
    assert_eq!(1, potato_rows.len());
    assert_eq!(1, repo.ingredients.len());
    let potato_id = potato_rows[0].id;

    assert_eq!(2, repo.recipe_ingredients.len());
    assert!(repo
        .recipe_ingredients
        .iter()
        .all(|row| row.ingredient_id == potato_id));
    assert_eq!(1, repo.recipe_ingredients[0].recipe_id);
    assert_eq!(2, repo.recipe_ingredients[1].recipe_id);
}

// Cascade delete: no steps or recipe_ingredients rows survive for a deleted
// id, while the ingredient catalog keeps its rows.
#[test]
fn delete_cascades_to_dependent_tables() {
    let mut repo = RecipeRepo::new();
    repo.add_recipe(&sample_recipe()).unwrap();
    assert_eq!(1, repo.steps.len());
    assert_eq!(1, repo.recipe_ingredients.len());

    repo.delete_recipe(1).unwrap();
    assert!(repo.recipes.is_empty());
    assert!(repo.steps.iter().all(|row| row.recipe_id != 1));
    assert!(repo.recipe_ingredients.iter().all(|row| row.recipe_id != 1));
    assert!(repo.steps.is_empty());
    assert!(repo.recipe_ingredients.is_empty());
    // no garbage collection of now-unused catalog rows
    assert_eq!(1, repo.ingredients.len());
    assert_eq!("Potato", repo.ingredients[0].name);
}

// No-op delete and update on an id that matches nothing.
#[test]
fn missing_id_delete_and_update_succeed_with_zero_effect() {
    let mut repo = RecipeRepo::new();

    assert_eq!(Ok(()), repo.delete_recipe(999));
    assert_eq!(Vec::<Recipe>::new(), repo.load_recipes().unwrap());

    let stray = Recipe {
        id: Some(999),
        ..sample_recipe()
    };
    assert_eq!(Ok(()), repo.update_recipe(&stray));
    assert_eq!(Vec::<Recipe>::new(), repo.load_recipes().unwrap());
    assert!(repo.ingredients.is_empty());
    assert!(repo.steps.is_empty());
    assert!(repo.recipe_ingredients.is_empty());

    // the same holds on a populated store
    repo.add_recipe(&sample_recipe()).unwrap();
    let before = repo.load_recipes().unwrap();
    assert_eq!(Ok(()), repo.delete_recipe(999));
    assert_eq!(Ok(()), repo.delete_recipe(-5));
    assert_eq!(Ok(()), repo.update_recipe(&stray));
    assert_eq!(before, repo.load_recipes().unwrap());
}

// A repeated step text violates the composite primary key of steps: the
// write fails as a conflict and rolls back completely.
#[test]
fn duplicate_step_text_is_a_conflict() {
    let mut repo = RecipeRepo::new();
    let mut recipe = sample_recipe();
    recipe.steps = vec!["Stir".to_string(), "Stir".to_string()];

    assert_eq!(Err(RepoError::Conflict), repo.add_recipe(&recipe));
    assert_eq!(Vec::<Recipe>::new(), repo.load_recipes().unwrap());
    assert!(repo.ingredients.is_empty());
}

// A twice-referenced ingredient violates the composite primary key of
// recipe_ingredients: the write fails as a conflict and rolls back.
#[test]
fn duplicate_ingredient_reference_is_a_conflict() {
    let mut repo = RecipeRepo::new();
    let mut recipe = sample_recipe();
    let again = recipe.ingredients[0].clone();
    recipe.ingredients.push(again);

    assert_eq!(Err(RepoError::Conflict), repo.add_recipe(&recipe));
    assert_eq!(Vec::<Recipe>::new(), repo.load_recipes().unwrap());

    // the same conflict on update leaves the stored recipe untouched
    repo.add_recipe(&sample_recipe()).unwrap();
    let before = repo.load_recipes().unwrap();
    let bad_update = Recipe {
        id: Some(1),
        ..recipe.clone()
    };
    assert_eq!(Err(RepoError::Conflict), repo.update_recipe(&bad_update));
    assert_eq!(before, repo.load_recipes().unwrap());
}

// Update rewrites name and description and wholesale-replaces both
// dependent sets.
#[test]
fn update_replaces_all_fields_and_sets() {
    let mut repo = RecipeRepo::new();
    repo.add_recipe(&sample_recipe()).unwrap();

    let updated = Recipe {
        id: Some(1),
        name: "Mash".to_string(),
        desc: None,
        steps: vec!["Boil".to_string(), "Mash".to_string()],
        ingredients: vec![
            IngredientQuantity {
                ingredient: "Potato".to_string(),
                quantity: Quantity {
                    value_bits: 2.5f64.to_bits(),
                    unit: "kg".to_string(),
                },
            },
            IngredientQuantity {
                ingredient: "Butter".to_string(),
                quantity: Quantity {
                    value_bits: 50.0f64.to_bits(),
                    unit: "g".to_string(),
                },
            },
        ],
    };
    repo.update_recipe(&updated).unwrap();
    assert_eq!(vec![updated], repo.load_recipes().unwrap());
    // "Potato" kept its catalog row; "Butter" was created lazily
    assert_eq!(2, repo.ingredients.len());
    assert_eq!("Potato", repo.ingredients[0].name);
    assert_eq!("Butter", repo.ingredients[1].name);
}

// The resolver hands back the same id for the same name and fresh ids for
// new names, in first-reference order.
#[test]
fn resolver_deduplicates_names() {
    let mut repo = RecipeRepo::new();
    let potato = "Potato".to_string();
    let leek = "Leek".to_string();

    let a = repo.resolve_ingredient(&potato);
    let b = repo.resolve_ingredient(&leek);
    let c = repo.resolve_ingredient(&potato);
    assert_eq!(a, c);
    assert_ne!(a, b);
    assert_eq!(1, a);
    assert_eq!(2, b);
    assert_eq!(2, repo.ingredients.len());
}

// The quantity magnitude rides through storage bit-exactly.
#[test]
fn quantity_magnitude_round_trips() {
    let mut repo = RecipeRepo::new();
    let mut recipe = sample_recipe();
    recipe.ingredients[0].quantity.value_bits = 0.1f64.to_bits();

    repo.add_recipe(&recipe).unwrap();
    let loaded = repo.load_recipes().unwrap();
    let bits = loaded[0].ingredients[0].quantity.value_bits;
    assert_eq!(0.1f64, f64::from_bits(bits));
}

// Setup is idempotent and keeps existing rows.
#[test]
fn setup_keeps_existing_rows() {
    let mut repo = RecipeRepo::new();
    repo.setup();
    repo.add_recipe(&sample_recipe()).unwrap();
    let before = repo.load_recipes().unwrap();
    repo.setup();
    assert_eq!(before, repo.load_recipes().unwrap());
}

// Ids are assigned by storage: whatever the caller wrote is ignored.
#[test]
fn client_supplied_id_is_ignored_on_add() {
    let mut repo = RecipeRepo::new();
    let recipe = Recipe {
        id: Some(77),
        ..sample_recipe()
    };
    repo.add_recipe(&recipe).unwrap();
    assert_eq!(Some(1), repo.load_recipes().unwrap()[0].id);
}

// The quantity and unit belong to the relation between one recipe and an
// ingredient, not to the ingredient: a cup of flour here and grams of flour
// there share one catalog row and keep their own quantities.
#[test]
fn quantity_is_scoped_to_the_relation() {
    let mut repo = RecipeRepo::new();
    let cake = Recipe {
        id: None,
        name: "Cake".to_string(),
        desc: None,
        steps: vec![],
        ingredients: vec![IngredientQuantity {
            ingredient: "Flour".to_string(),
            quantity: Quantity {
                value_bits: 1.0f64.to_bits(),
                unit: "cup".to_string(),
            },
        }],
    };
    let bread = Recipe {
        name: "Bread".to_string(),
        ingredients: vec![IngredientQuantity {
            ingredient: "Flour".to_string(),
            quantity: Quantity {
                value_bits: 250.0f64.to_bits(),
                unit: "gram".to_string(),
            },
        }],
        ..cake.clone()
    };
    repo.add_recipe(&cake).unwrap();
    repo.add_recipe(&bread).unwrap();

    let loaded = repo.load_recipes().unwrap();
    assert_eq!("cup", loaded[0].ingredients[0].quantity.unit);
    assert_eq!(1.0f64.to_bits(), loaded[0].ingredients[0].quantity.value_bits);
    assert_eq!("gram", loaded[1].ingredients[0].quantity.unit);
    assert_eq!(250.0f64.to_bits(), loaded[1].ingredients[0].quantity.value_bits);
    assert_eq!(1, repo.ingredients.len());
}
