use vstd::prelude::*;

use crate::strmap::StrMap;

verus! {

/// An item kind.
pub struct ItemDef {
    pub id: String,
    pub name: String,
    pub description: String,
    pub category: String,
    /// How many of this item one inventory slot holds.
    pub stack_limit: u32,
    pub icon: String,
    pub base_cost: Option<u32>,
    pub energy_value: Option<u32>,
}

/// Item kinds by id.
pub type ItemDefs = StrMap<ItemDef>;

/// A pile of one item kind in one inventory slot.
pub struct ItemStack {
    pub item_id: String,
    pub count: u32,
}

impl View for ItemStack {
    type V = (Seq<char>, u32);

    open spec fn view(&self) -> (Seq<char>, u32) {
        (self.item_id@, self.count)
    }
}

} // verus!
