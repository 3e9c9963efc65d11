//! What a station makes, and of what.

use vstd::prelude::*;

verus! {

/// One input of a recipe.
#[derive(Debug, Clone, PartialEq, Eq)]
pub struct Ingredient {
    pub item: String,
    pub qty: i64,
}

/// A recipe that a station works on for a while.
#[derive(Debug, Clone, PartialEq, Eq)]
pub struct StationRecipe {
    pub display_name: String,
    pub tags: Vec<String>,
    pub skill: String,
    pub required_level: i64,
    pub inputs: Vec<Ingredient>,
    pub output_item: String,
    pub output_qty: i64,
    pub fuel_units: i64,
    pub duration_ms: i64,
    pub xp: i64,
}

/// The inputs of a recipe, by name and quantity.
pub open spec fn ingredients_view(inputs: Seq<Ingredient>) -> Seq<(Seq<char>, int)> {
    Seq::new(inputs.len(), |i: int| (inputs[i].item@, inputs[i].qty as int))
}

} // verus!
