//! Finish swaps: a new material for one surface, with what undoing it needs.
use vstd::prelude::*;

use crate::ids::EntityId;

verus! {

#[derive(Debug, PartialEq)]
pub struct FinishSwap {
    /// What the material is on.
    pub target_entity: EntityId,
    /// Index into the materials of the entity, 0 for the main one.
    pub slot: u32,
    pub new_material_id: String,
}

impl Clone for FinishSwap {
    fn clone(&self) -> (r: FinishSwap)
        ensures
            r == *self,
    {
        FinishSwap {
            target_entity: self.target_entity.clone(),
            slot: self.slot,
            new_material_id: self.new_material_id.clone(),
        }
    }
}

#[derive(Debug, PartialEq)]
pub struct SwapPreview {
    pub swap: FinishSwap,
    pub previous_material_id: Option<String>,
}

impl FinishSwap {
    /// The record of a swap on a surface that has the material `previous`.
    pub fn preview(self, previous: Option<String>) -> (r: SwapPreview)
        ensures
            r == (SwapPreview { swap: self, previous_material_id: previous }),
    {
        SwapPreview { swap: self, previous_material_id: previous }
    }
}

} // verus!
