use vstd::prelude::*;
use super::tree::{
    find_in_forest, lemma_find_in_forest_prefix, lemma_find_in_forest_step, ItemTree,
};
use super::view_item::ViewItem;
use crate::view::column::ColumnView;
use crate::view::Column;

verus! {

/// The top-level items of one report, in the order in which they are shown.
pub struct Model {
    pub items: Vec<ViewItem>,
}

impl View for Model {
    type V = Seq<ItemTree>;

    open spec fn view(&self) -> Seq<ItemTree> {
        Seq::new(self.items@.len(), |i: int| self.items@[i]@)
    }
}

impl Model {
    /// A model of the given top-level items, in their order.
    pub fn new(items: Vec<ViewItem>) -> (model: Model)
        ensures
            model.items == items,
            model@ == Seq::new(items@.len(), |i: int| items@[i]@),
    {
        Model { items }
    }

    /// One column for each top-level item, in order, each with its place.
    pub fn columns(&self) -> (columns: Vec<Column>)
        ensures
            columns@.len() == self@.len(),
            forall|i: int|
                0 <= i < self@.len() ==> (#[trigger] columns@[i])@ == (ColumnView {
                    root: self@[i],
                    index: i as nat,
                }),
    {
        let mut columns: Vec<Column> = Vec::new();
        let mut index: usize = 0;
        while index < self.items.len()
            invariant
                index <= self.items.len(),
                columns@.len() == index,
                forall|i: int|
                    0 <= i < index ==> (#[trigger] columns@[i])@ == (ColumnView {
                        root: self@[i],
                        index: i as nat,
                    }),
            decreases self.items.len() - index,
        {
            columns.push(Column::new(&self.items[index], index));
            index += 1;
        }
        columns
    }

    /// The first item that carries `id_to_find`: the top-level items are
    /// searched in order, each with everything below it.
    pub fn find_item_by_id(&self, id_to_find: &String) -> (found: Option<&ViewItem>)
        ensures
            match found {
                Some(item) => find_in_forest(self@, id_to_find@) == Some(item@),
                None => find_in_forest(self@, id_to_find@) is None,
            },
    {
        let ghost forest = self@;
        let mut i: usize = 0;
        while i < self.items.len()
            invariant
                i <= self.items.len(),
                forest == self@,
                find_in_forest(forest.take(i as int), id_to_find@) is None,
            decreases self.items.len() - i,
        {
            let found = self.items[i].find_by_id(id_to_find);
            proof {
                lemma_find_in_forest_step(forest, i as int, id_to_find@);
            }
            if found.is_some() {
                proof {
                    lemma_find_in_forest_prefix(forest, i + 1, id_to_find@);
                }
                return found;
            }
            i += 1;
        }
        assert(forest.take(i as int) =~= forest);
        None
    }
}

} // verus!
