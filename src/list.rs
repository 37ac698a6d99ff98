//! Display lists: paint-order buckets of items plus child stacking contexts.
use vstd::prelude::*;
use std::sync::Arc;
use crate::context::StackingContext;
use crate::item::DisplayItem;

verus! {

/// The display items of a stacking context, in buckets that follow the painting steps of
/// CSS 2.1 Appendix E. Within a bucket, insertion order is paint order.
pub struct DisplayList {
    /// Borders and background of the root of the stacking context.
    pub background_and_borders: Vec<DisplayItem>,
    /// Borders and backgrounds of block-level descendants.
    pub block_backgrounds_and_borders: Vec<DisplayItem>,
    /// Floats, painted as pseudo stacking contexts.
    pub floats: Vec<DisplayItem>,
    /// All other content.
    pub content: Vec<DisplayItem>,
    /// Outlines.
    pub outlines: Vec<DisplayItem>,
    /// Child stacking contexts.
    pub children: Vec<Arc<StackingContext>>,
}

/// All items of a list, bucket after bucket in paint order.
pub open spec fn all_items(l: DisplayList) -> Seq<DisplayItem> {
    l.background_and_borders@ + l.block_backgrounds_and_borders@ + l.floats@ + l.content@
        + l.outlines@
}

impl DisplayList {
    /// A list with every bucket empty.
    pub fn new() -> (r: DisplayList)
        ensures
            r.background_and_borders@.len() == 0,
            r.block_backgrounds_and_borders@.len() == 0,
            r.floats@.len() == 0,
            r.content@.len() == 0,
            r.outlines@.len() == 0,
            r.children@.len() == 0,
    {
        DisplayList {
            background_and_borders: Vec::new(),
            block_backgrounds_and_borders: Vec::new(),
            floats: Vec::new(),
            content: Vec::new(),
            outlines: Vec::new(),
            children: Vec::new(),
        }
    }

    /// Moves every item of `other` to the end of the matching bucket of `self`, keeping order,
    /// and leaves `other` empty.
    pub fn append_from(&mut self, other: &mut DisplayList)
        ensures
            final(self).background_and_borders@ == old(self).background_and_borders@
                + old(other).background_and_borders@,
            final(self).block_backgrounds_and_borders@ == old(self).block_backgrounds_and_borders@
                + old(other).block_backgrounds_and_borders@,
            final(self).floats@ == old(self).floats@ + old(other).floats@,
            final(self).content@ == old(self).content@ + old(other).content@,
            final(self).outlines@ == old(self).outlines@ + old(other).outlines@,
            final(self).children@ == old(self).children@ + old(other).children@,
            final(other).background_and_borders@.len() == 0,
            final(other).block_backgrounds_and_borders@.len() == 0,
            final(other).floats@.len() == 0,
            final(other).content@.len() == 0,
            final(other).outlines@.len() == 0,
            final(other).children@.len() == 0,
    {
        self.background_and_borders.append(&mut other.background_and_borders);
        self.block_backgrounds_and_borders.append(&mut other.block_backgrounds_and_borders);
        self.floats.append(&mut other.floats);
        self.content.append(&mut other.content);
        self.outlines.append(&mut other.outlines);
        self.children.append(&mut other.children);
    }

    /// Merges the block background, content and outline buckets into the float bucket, ahead
    /// of the floats already there, each keeping its order; those three buckets become empty.
    pub fn form_float_pseudo_stacking_context(&mut self)
        ensures
            final(self).floats@ == old(self).block_backgrounds_and_borders@ + old(self).content@
                + old(self).outlines@ + old(self).floats@,
            final(self).floats@.len() == old(self).floats@.len()
                + old(self).block_backgrounds_and_borders@.len() + old(self).content@.len()
                + old(self).outlines@.len(),
            final(self).block_backgrounds_and_borders@.len() == 0,
            final(self).content@.len() == 0,
            final(self).outlines@.len() == 0,
            final(self).background_and_borders@ == old(self).background_and_borders@,
            final(self).children@ == old(self).children@,
    {
        let mut merged: Vec<DisplayItem> = Vec::new();
        merged.append(&mut self.block_backgrounds_and_borders);
        merged.append(&mut self.content);
        merged.append(&mut self.outlines);
        merged.append(&mut self.floats);
        self.floats = merged;
    }

    /// References to all items, bucket after bucket in paint order. This walks every bucket
    /// and is meant for debugging only.
    pub fn all_display_items(&self) -> (r: Vec<&DisplayItem>)
        ensures
            r@.len() == all_items(*self).len(),
            forall|i: int| 0 <= i < r@.len() ==> *r@[i] == all_items(*self)[i],
    {
        let mut r: Vec<&DisplayItem> = Vec::new();
        push_refs(&mut r, &self.background_and_borders);
        push_refs(&mut r, &self.block_backgrounds_and_borders);
        push_refs(&mut r, &self.floats);
        push_refs(&mut r, &self.content);
        push_refs(&mut r, &self.outlines);
        r
    }
}

fn push_refs<'a>(out: &mut Vec<&'a DisplayItem>, items: &'a Vec<DisplayItem>)
    ensures
        final(out)@.len() == old(out)@.len() + items@.len(),
        forall|i: int| 0 <= i < old(out)@.len() ==> final(out)@[i] == old(out)@[i],
        forall|i: int|
            0 <= i < items@.len() ==> *final(out)@[old(out)@.len() + i] == items@[i],
{
    let mut i: usize = 0;
    while i < items.len()
        invariant
            i <= items@.len(),
            out@.len() == old(out)@.len() + i,
            forall|j: int| 0 <= j < old(out)@.len() ==> out@[j] == old(out)@[j],
            forall|j: int| 0 <= j < i ==> *out@[old(out)@.len() + j] == items@[j],
        decreases items.len() - i,
    {
        out.push(&items[i]);
        i = i + 1;
    }
}

} // verus!
