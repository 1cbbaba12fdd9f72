use vstd::prelude::*;
use crate::model::tree::ItemTree;
use crate::model::view_item::trees_of;
use crate::model::ViewItem;
use crate::view::Column;

verus! {

/// A walk over the entries of a column, from its top down in depth-first
/// pre-order.
pub struct ColumnIter<'a> {
    collection: Vec<&'a ViewItem>,
    index: usize,
}

impl<'a> ColumnIter<'a> {
    #[verifier::type_invariant]
    spec fn in_bounds(self) -> bool {
        self.index <= self.collection@.len()
    }

    /// The next entry of the walk, until none is left.
    pub fn next(&mut self) -> (item: Option<&'a ViewItem>)
        ensures
            match item {
                Some(entry) => old(self)@.len() > 0 && entry@ == old(self)@[0] && final(self)@
                    == old(self)@.drop_first(),
                None => old(self)@.len() == 0 && final(self)@ == old(self)@,
            },
    {
        proof {
            use_type_invariant(&*self);
        }
        if self.index < self.collection.len() {
            let item = self.collection[self.index];
            self.index += 1;
            assert(self@ =~= old(self)@.drop_first());
            Some(item)
        } else {
            None
        }
    }
}

impl<'a> View for ColumnIter<'a> {
    type V = Seq<ItemTree>;

    /// The entries that the walk has yet to give, in order.
    closed spec fn view(&self) -> Seq<ItemTree> {
        trees_of(self.collection@).skip(self.index as int)
    }
}

impl<'a> Column<'a> {
    /// A walk over the column's entries that starts at its top.
    pub fn iter(&self) -> (entries: ColumnIter)
        ensures
            entries@ == self@.root.flatten(),
    {
        let entries = ColumnIter { collection: self.top_item.flatten(), index: 0 };
        assert(entries@ =~= self@.root.flatten());
        entries
    }
}

} // verus!
