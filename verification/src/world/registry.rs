//! The registries of items and recipes.

use vstd::prelude::*;

use crate::table::{find, lemma_find, lemma_find_is};
use crate::text::same;
use crate::world::tools::is_tool;

verus! {

/// A static item definition. Gathered resources, crafted goods and build costs name these by `id`.
#[derive(Debug, Clone, Copy, PartialEq, Eq)]
pub struct Item {
    pub id: &'static str,
    pub name: &'static str,
    pub stack_size: i64,
    pub category: &'static str,
}

/// The view of an [`Item`].
pub struct ItemView {
    pub id: Seq<char>,
    pub name: Seq<char>,
    pub stack_size: int,
    pub category: Seq<char>,
}

impl View for Item {
    type V = ItemView;

    open spec fn view(&self) -> ItemView {
        ItemView { id: self.id@, name: self.name@, stack_size: self.stack_size as int, category: self.category@ }
    }
}

pub open spec fn item_def(id: &str, name: &str, stack_size: int, category: &str) -> ItemView {
    ItemView { id: id@, name: name@, stack_size, category: category@ }
}

/// Every item there is.
pub open spec fn item_registry() -> Seq<ItemView> {
    seq![
        item_def("wood", "Wood", 100, "wood"),
        item_def("stone", "Stone", 100, "stone"),
        item_def("plank", "Plank", 100, "crafted"),
        item_def("tool_kit", "Tool Kit", 100, "crafted"),
        item_def("dog_pelt", "Dog Pelt", 100, "trophy"),
        item_def("iron_ore", "Iron Ore", 100, "ore"),
        item_def("clay_lump", "Clay Lump", 100, "clay"),
        item_def("charcoal", "Charcoal", 100, "fuel"),
        item_def("iron_ingot", "Iron Ingot", 100, "metal"),
        item_def("sword", "Sword", 1, "weapon"),
        item_def("pickaxe", "Pickaxe", 1, "tool"),
        item_def("axe", "Axe", 1, "tool"),
    ]
}

/// The views of a list of items.
pub open spec fn items_view(items: Seq<Item>) -> Seq<ItemView> {
    Seq::new(items.len(), |i: int| items[i]@)
}

/// The item registry.
pub fn items() -> (out: Vec<Item>)
    ensures
        items_view(out@) == item_registry(),
{
    let out: Vec<Item> = vec![
        Item { id: "wood", name: "Wood", stack_size: 100, category: "wood" },
        Item { id: "stone", name: "Stone", stack_size: 100, category: "stone" },
        Item { id: "plank", name: "Plank", stack_size: 100, category: "crafted" },
        Item { id: "tool_kit", name: "Tool Kit", stack_size: 100, category: "crafted" },
        // Dropped by wild dogs, and what the bounty is paid for. It stacks and trades like wood.
        Item { id: "dog_pelt", name: "Dog Pelt", stack_size: 100, category: "trophy" },
        Item { id: "iron_ore", name: "Iron Ore", stack_size: 100, category: "ore" },
        Item { id: "clay_lump", name: "Clay Lump", stack_size: 100, category: "clay" },
        // Fuel for every heat station.
        Item { id: "charcoal", name: "Charcoal", stack_size: 100, category: "fuel" },
        Item { id: "iron_ingot", name: "Iron Ingot", stack_size: 100, category: "metal" },
        // Weapons and tools are worn, not stacked.
        Item { id: "sword", name: "Sword", stack_size: 1, category: "weapon" },
        Item { id: "pickaxe", name: "Pickaxe", stack_size: 1, category: "tool" },
        Item { id: "axe", name: "Axe", stack_size: 1, category: "tool" },
    ];
    assert(items_view(out@) =~= item_registry());
    out
}

/// A crafting recipe: `inputs` are consumed to make `output_qty` of `output_item`.
#[derive(Debug, Clone, Copy)]
pub struct Recipe {
    pub id: &'static str,
    pub name: &'static str,
    pub inputs: &'static [(&'static str, i64)],
    pub output_item: &'static str,
    pub output_qty: i64,
}

/// The view of a [`Recipe`].
pub struct RecipeView {
    pub id: Seq<char>,
    pub name: Seq<char>,
    pub inputs: Seq<(Seq<char>, int)>,
    pub output_item: Seq<char>,
    pub output_qty: int,
}

/// The view of a list of ingredients.
pub open spec fn inputs_view(inputs: Seq<(&'static str, i64)>) -> Seq<(Seq<char>, int)> {
    Seq::new(inputs.len(), |i: int| (inputs[i].0@, inputs[i].1 as int))
}

impl View for Recipe {
    type V = RecipeView;

    open spec fn view(&self) -> RecipeView {
        RecipeView {
            id: self.id@,
            name: self.name@,
            inputs: inputs_view(self.inputs@),
            output_item: self.output_item@,
            output_qty: self.output_qty as int,
        }
    }
}

pub open spec fn recipe_def(
    id: &str,
    name: &str,
    inputs: Seq<(Seq<char>, int)>,
    output_item: &str,
    output_qty: int,
) -> RecipeView {
    RecipeView { id: id@, name: name@, inputs, output_item: output_item@, output_qty }
}

/// Every recipe there is.
pub open spec fn recipe_registry() -> Seq<RecipeView> {
    seq![
        recipe_def("plank", "Plank", seq![("wood"@, 2int)], "plank", 2),
        recipe_def("tool_kit", "Tool Kit", seq![("wood"@, 1int), ("stone"@, 1int)], "tool_kit", 1),
        recipe_def("pickaxe", "Pickaxe", seq![("wood"@, 3int), ("stone"@, 5int)], "pickaxe", 1),
        recipe_def("sword", "Sword", seq![("wood"@, 3int), ("stone"@, 6int)], "sword", 1),
        recipe_def("axe", "Axe", seq![("wood"@, 3int), ("stone"@, 2int)], "axe", 1),
        recipe_def("charcoal", "Charcoal", seq![("wood"@, 3int)], "charcoal", 2),
    ]
}

/// The views of a list of recipes.
pub open spec fn recipes_view(recipes: Seq<Recipe>) -> Seq<RecipeView> {
    Seq::new(recipes.len(), |i: int| recipes[i]@)
}

/// The recipe registry.
pub fn recipes() -> (out: Vec<Recipe>)
    ensures
        recipes_view(out@) == recipe_registry(),
{
    let out: Vec<Recipe> = vec![
        Recipe { id: "plank", name: "Plank", inputs: &[("wood", 2)], output_item: "plank", output_qty: 2 },
        Recipe {
            id: "tool_kit",
            name: "Tool Kit",
            inputs: &[("wood", 1), ("stone", 1)],
            output_item: "tool_kit",
            output_qty: 1,
        },
        // Upkeep is a real share of what a tool gathers, and a miner pays it in what mining yields.
        Recipe {
            id: "pickaxe",
            name: "Pickaxe",
            inputs: &[("wood", 3), ("stone", 5)],
            output_item: "pickaxe",
            output_qty: 1,
        },
        // A sword gathers nothing, and costs more than either gathering tool.
        Recipe {
            id: "sword",
            name: "Sword",
            inputs: &[("wood", 3), ("stone", 6)],
            output_item: "sword",
            output_qty: 1,
        },
        Recipe {
            id: "axe",
            name: "Axe",
            inputs: &[("wood", 3), ("stone", 2)],
            output_item: "axe",
            output_qty: 1,
        },
        // The only source of fuel, so it is cheap and made at once.
        Recipe { id: "charcoal", name: "Charcoal", inputs: &[("wood", 3)], output_item: "charcoal", output_qty: 2 },
    ];
    proof {
        let want = recipe_registry();
        assert(out@[0]@.inputs =~= want[0].inputs);
        assert(out@[1]@.inputs =~= want[1].inputs);
        assert(out@[2]@.inputs =~= want[2].inputs);
        assert(out@[3]@.inputs =~= want[3].inputs);
        assert(out@[4]@.inputs =~= want[4].inputs);
        assert(out@[5]@.inputs =~= want[5].inputs);
        assert(recipes_view(out@) =~= want);
    }
    out
}

pub open spec fn has_item_id(id: Seq<char>) -> spec_fn(ItemView) -> bool {
    |i: ItemView| i.id == id
}

pub open spec fn has_recipe_id(id: Seq<char>) -> spec_fn(RecipeView) -> bool {
    |r: RecipeView| r.id == id
}

pub open spec fn makes_item(id: Seq<char>) -> spec_fn(RecipeView) -> bool {
    |r: RecipeView| r.output_item == id
}

/// Whether an item is in the registry.
pub open spec fn is_item(id: Seq<char>) -> bool {
    find(item_registry(), has_item_id(id)) < item_registry().len()
}

/// Whether an item is a fungible good: it is in the registry, and it stacks.
pub open spec fn commodity(id: Seq<char>) -> bool {
    exists|i: int|
        0 <= i < item_registry().len() && (#[trigger] item_registry()[i]).id == id && item_registry()[i].stack_size > 1
}

/// No tool is a commodity: what is sold on the listing board is kept off the book, and the other way round.
pub proof fn law_a_tool_is_no_commodity(id: Seq<char>)
    ensures
        !(is_tool(id) && commodity(id)),
{
    reveal_strlit("wood");
    reveal_strlit("stone");
    reveal_strlit("plank");
    reveal_strlit("tool_kit");
    reveal_strlit("dog_pelt");
    reveal_strlit("iron_ore");
    reveal_strlit("clay_lump");
    reveal_strlit("charcoal");
    reveal_strlit("iron_ingot");
    reveal_strlit("sword");
    reveal_strlit("pickaxe");
    reveal_strlit("axe");
    if is_tool(id) && commodity(id) {
        let r = item_registry();
        let i = choose|i: int| 0 <= i < r.len() && (#[trigger] r[i]).id == id && r[i].stack_size > 1;
        assert(i < 9);
        assert(id.len() == 3 || id.len() == 5 || id.len() == 7);
        assert(r[1].id[1] == 't' && "sword"@[1] == 'w');
        assert(r[2].id[0] == 'p' && "sword"@[0] == 's');
        assert(r[0].id.len() == 4 && r[3].id.len() == 8 && r[4].id.len() == 8 && r[5].id.len() == 8);
        assert(r[6].id.len() == 9 && r[7].id.len() == 8 && r[8].id.len() == 10);
    }
}

/// Everything in the registry that is no tool is a commodity, and nothing else is.
pub proof fn law_what_is_a_commodity(id: Seq<char>)
    ensures
        commodity(id) <==> is_item(id) && !is_tool(id),
{
    law_a_tool_is_no_commodity(id);
    let r = item_registry();
    let k = find(r, has_item_id(id));
    lemma_find(r, has_item_id(id));
    if commodity(id) {
        let i = choose|i: int| 0 <= i < r.len() && (#[trigger] r[i]).id == id && r[i].stack_size > 1;
        assert(has_item_id(id)(r[i]));
    }
    if is_item(id) && !is_tool(id) {
        assert(r[k].id == id);
        assert(is_tool(r[9].id) && is_tool(r[10].id) && is_tool(r[11].id));
        assert(r[k].stack_size > 1);
    }
}

/// Look up an item by id.
pub fn item(id: &str) -> (found: Option<Item>)
    ensures
        match found {
            Some(i) => is_item(id@) && i@ == item_registry()[find(item_registry(), has_item_id(id@))],
            None => !is_item(id@),
        },
{
    let all = items();
    let ghost views = items_view(all@);
    let mut k: usize = 0;
    while k < all.len()
        invariant
            k <= all.len(),
            views == items_view(all@),
            views == item_registry(),
            forall|j: int| 0 <= j < k ==> !has_item_id(id@)(#[trigger] views[j]),
        decreases all.len() - k,
    {
        assert(views[k as int] == all@[k as int]@);
        if same(all[k].id, id) {
            proof {
                lemma_find_is(views, has_item_id(id@), k as int);
            }
            return Some(all[k]);
        }
        k = k + 1;
    }
    proof {
        lemma_find_is(views, has_item_id(id@), k as int);
    }
    None
}

/// Look up a recipe by id.
pub fn recipe(id: &str) -> (found: Option<Recipe>)
    ensures
        ({
            let k = find(recipe_registry(), has_recipe_id(id@));
            match found {
                Some(r) => k < recipe_registry().len() && r@ == recipe_registry()[k],
                None => k == recipe_registry().len(),
            }
        }),
{
    let all = recipes();
    let ghost views = recipes_view(all@);
    let mut k: usize = 0;
    while k < all.len()
        invariant
            k <= all.len(),
            views == recipes_view(all@),
            views == recipe_registry(),
            forall|j: int| 0 <= j < k ==> !has_recipe_id(id@)(#[trigger] views[j]),
        decreases all.len() - k,
    {
        assert(views[k as int] == all@[k as int]@);
        if same(all[k].id, id) {
            proof {
                lemma_find_is(views, has_recipe_id(id@), k as int);
            }
            return Some(all[k]);
        }
        k = k + 1;
    }
    proof {
        lemma_find_is(views, has_recipe_id(id@), k as int);
    }
    None
}

/// The first recipe that makes an item.
pub fn recipe_for(item_id: &str) -> (found: Option<Recipe>)
    ensures
        ({
            let k = find(recipe_registry(), makes_item(item_id@));
            match found {
                Some(r) => k < recipe_registry().len() && r@ == recipe_registry()[k],
                None => k == recipe_registry().len(),
            }
        }),
{
    let all = recipes();
    let ghost views = recipes_view(all@);
    let mut k: usize = 0;
    while k < all.len()
        invariant
            k <= all.len(),
            views == recipes_view(all@),
            views == recipe_registry(),
            forall|j: int| 0 <= j < k ==> !makes_item(item_id@)(#[trigger] views[j]),
        decreases all.len() - k,
    {
        assert(views[k as int] == all@[k as int]@);
        if same(all[k].output_item, item_id) {
            proof {
                lemma_find_is(views, makes_item(item_id@), k as int);
            }
            return Some(all[k]);
        }
        k = k + 1;
    }
    proof {
        lemma_find_is(views, makes_item(item_id@), k as int);
    }
    None
}

/// Whether an item is traded on the book as a commodity: whatever stacks is interchangeable, and
/// whatever does not has a state of its own and is sold on the listing board.
pub fn is_commodity(item_id: &str) -> (yes: bool)
    ensures
        yes == commodity(item_id@),
{
    let all = items();
    let ghost views = items_view(all@);
    let mut k: usize = 0;
    while k < all.len()
        invariant
            k <= all.len(),
            views == items_view(all@),
            views == item_registry(),
            forall|j: int| 0 <= j < k ==> !((#[trigger] views[j]).id == item_id@ && views[j].stack_size > 1),
        decreases all.len() - k,
    {
        assert(views[k as int] == all@[k as int]@);
        if same(all[k].id, item_id) && all[k].stack_size > 1 {
            assert(item_registry()[k as int].id == item_id@);
            return true;
        }
        k = k + 1;
    }
    false
}

} // verus!
