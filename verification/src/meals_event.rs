use vstd::prelude::*;

verus! {

/// The event vocabulary of the meal-planning domain: one variant per fact
/// that can be appended to its log.  The store never interprets these; they
/// are serialized at the application boundary and carried as payload bytes.
#[derive(Debug, Clone, PartialEq)]
#[allow(non_snake_case)]
pub enum MealsEvent {
    NewMeal { name: String },
    RenameMeal { oldId: String, newName: String },
    DeleteMeal { mealId: String },
    AddIngredient { meal: String, ingredient: String },
    RenameIngredient { meal: String, oldIngredient: String, newIngredient: String },
    DeleteIngredient { meal: String, ingredient: String },
}

} // verus!
