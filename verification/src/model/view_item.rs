use vstd::prelude::*;
use vstd::std_specs::cmp::{PartialEqSpec, PartialEqSpecImpl};
use vstd::std_specs::iter::IteratorSpec;
use vstd::string::StrSliceExecFns;
use uuid::Uuid;
use crate::view::layout::item_width;
use crate::view::Column;
use super::tree::{
    find_in_forest, flatten_forest, forest_height, lemma_find_in_forest_prefix,
    lemma_find_in_forest_step, lemma_flatten_forest_step, lemma_forest_height_bounds,
    lemma_forest_height_step, lemma_level_in_forest_prefix, lemma_level_in_forest_step,
    lemma_level_within_height, level_in_forest, newline_count, ItemTree,
};

verus! {

/// A named node of the report with a stable identifier and ordered children.
#[derive(Debug)]
pub struct ViewItem {
    pub name: String,
    pub sub_items: Vec<ViewItem>,
    pub id: String,
}

impl ViewItem {
    /// The value of the item and, recursively, of everything below it.
    pub open spec fn as_tree(&self) -> ItemTree
        decreases self,
    {
        ItemTree {
            id: self.id@,
            name: self.name@,
            children: Seq::new(
                self.sub_items@.len(),
                |i: int|
                    if 0 <= i < self.sub_items@.len() {
                        self.sub_items@[i].as_tree()
                    } else {
                        arbitrary()
                    },
            ),
        }
    }
}

impl View for ViewItem {
    type V = ItemTree;

    open spec fn view(&self) -> ItemTree {
        self.as_tree()
    }
}

/// The values of the items that `items` refers to, in order.
pub open spec fn trees_of(items: Seq<&ViewItem>) -> Seq<ItemTree> {
    items.map_values(|item: &ViewItem| item@)
}

impl PartialEq for ViewItem {
    /// Items are compared by identifier alone.
    fn eq(&self, other: &Self) -> (same: bool) {
        self.id == other.id
    }
}

impl PartialEqSpecImpl for ViewItem {
    open spec fn obeys_eq_spec() -> bool {
        true
    }

    open spec fn eq_spec(&self, other: &Self) -> bool {
        self@.same_item(other@)
    }
}

impl Eq for ViewItem {

}

impl Clone for ViewItem {
    /// A deep copy: the same identifier, label and descendants.
    fn clone(&self) -> (copy: Self)
        ensures
            copy@ == self@,
        decreases self,
    {
        let mut sub_items: Vec<ViewItem> = Vec::new();
        let mut i: usize = 0;
        while i < self.sub_items.len()
            invariant
                i <= self.sub_items.len(),
                sub_items.len() == i,
                forall|j: int| 0 <= j < i ==> sub_items@[j]@ == self.sub_items@[j]@,
            decreases self.sub_items.len() - i,
        {
            let child = self.sub_items[i].clone();
            sub_items.push(child);
            i += 1;
        }
        let copy = ViewItem { name: self.name.clone(), sub_items, id: self.id.clone() };
        assert(copy@.children =~= self@.children);
        copy
    }
}

/// Two items are equal exactly when their identifiers are: their labels
/// and children play no part.
pub proof fn equality_is_identity(a: ViewItem, b: ViewItem)
    ensures
        PartialEqSpec::eq_spec(&a, &b) <==> a@.id == b@.id,
{
}

/// Equality is reflexive, symmetric and transitive.
pub proof fn equality_is_equivalence(a: ViewItem, b: ViewItem, c: ViewItem)
    ensures
        PartialEqSpec::eq_spec(&a, &a),
        PartialEqSpec::eq_spec(&a, &b) ==> PartialEqSpec::eq_spec(&b, &a),
        PartialEqSpec::eq_spec(&a, &b) && PartialEqSpec::eq_spec(&b, &c) ==> PartialEqSpec::eq_spec(
            &a,
            &c,
        ),
{
}

/// A deep copy has the value of what it was copied from, and so equals it.
pub proof fn copy_is_equal(item: ViewItem, copy: ViewItem)
    requires
        cloned(item, copy),
    ensures
        copy@ == item@,
        PartialEqSpec::eq_spec(&copy, &item),
{
}

/// A walk over the children of an item, in insertion order.
struct ViewItemIter<'a> {
    collection: &'a ViewItem,
    index: usize,
}

impl<'a> ViewItemIter<'a> {
    #[verifier::type_invariant]
    spec fn in_bounds(self) -> bool {
        self.index <= self.collection.sub_items@.len()
    }

    /// The children that the walk has yet to give, in order.
    spec fn remaining(self) -> Seq<ItemTree> {
        self.collection@.children.skip(self.index as int)
    }

    /// The next child of the walk, until none is left.
    fn next(&mut self) -> (item: Option<&'a ViewItem>)
        ensures
            final(self).collection == old(self).collection,
            match item {
                Some(child) => old(self).remaining().len() > 0 && child@ == old(self).remaining()[0]
                    && final(self).remaining() == old(self).remaining().drop_first(),
                None => old(self).remaining().len() == 0 && final(self).remaining() == old(
                    self,
                ).remaining(),
            },
    {
        proof {
            use_type_invariant(&*self);
        }
        if self.index < self.collection.sub_items.len() {
            let item = &self.collection.sub_items[self.index];
            self.index += 1;
            assert(self.remaining() =~= old(self).remaining().drop_first());
            Some(item)
        } else {
            None
        }
    }
}

/// Whether `text` has the shape of a random UUID in hyphenated lower-case
/// form: 36 characters, a hyphen at each of the places 8, 13, 18 and 23,
/// and a digit or one of the letters `a` to `f` at every other place; of
/// these the one at place 14 is the version, `4`, and the one at place 19,
/// which holds the variant, is one of `8`, `9`, `a` and `b`.
pub open spec fn is_random_uuid(text: Seq<char>) -> bool {
    &&& text.len() == 36
    &&& forall|i: int|
        0 <= i < 36 ==> if i == 8 || i == 13 || i == 18 || i == 23 {
            #[trigger] text[i] == '-'
        } else {
            ('0' <= text[i] <= '9') || ('a' <= text[i] <= 'f')
        }
    &&& text[14] == '4'
    &&& (text[19] == '8' || text[19] == '9' || text[19] == 'a' || text[19] == 'b')
}

/// A fresh identifier: `uuid::Uuid::new_v4`, written out by the `Display`
/// of `Uuid`, that is in hyphenated lower-case form. Which identifier
/// comes out is left to chance, and nothing here says that it differs from
/// any other; trusted is its shape alone. `new_v4` panics where the
/// operating system gives no random bytes.
#[verifier::external_body]
fn random_id() -> (id: String)
    ensures
        is_random_uuid(id@),
{
    Uuid::new_v4().to_string()
}

impl ViewItem {
    /// A leaf with the given label and a fresh random identifier.
    pub fn new(name: String) -> (item: ViewItem)
        ensures
            item@.name == name@,
            item@.children == Seq::<ItemTree>::empty(),
            is_random_uuid(item@.id),
    {
        Self::with_id(name, random_id())
    }

    /// A leaf with the given label and identifier.
    pub fn with_id(name: String, id: String) -> (item: ViewItem)
        ensures
            item@ == ItemTree::leaf(name@, id@),
    {
        let item = ViewItem { name, sub_items: Vec::new(), id };
        assert(item@.children =~= Seq::empty());
        item
    }

    /// Appends `item_to_add` after the present children.
    pub fn add_sub_item(&mut self, item_to_add: ViewItem)
        ensures
            final(self)@ == old(self)@.with_child(item_to_add@),
    {
        self.sub_items.push(item_to_add);
        assert(self@.children =~= old(self)@.children.push(item_to_add@));
    }

    /// The first item in pre-order, among this item and its descendants,
    /// whose identifier is `id_to_find`.
    pub fn find_by_id(&self, id_to_find: &String) -> (found: Option<&ViewItem>)
        ensures
            match found {
                Some(item) => self@.find(id_to_find@) == Some(item@),
                None => self@.find(id_to_find@) is None,
            },
        decreases self, 1nat,
    {
        if self.id == *id_to_find {
            Some(self)
        } else {
            self.find_in_sub_items(id_to_find)
        }
    }

    /// The first match that a child's subtree gives, children taken in order.
    fn find_in_sub_items(&self, id_to_find: &String) -> (found: Option<&ViewItem>)
        ensures
            match found {
                Some(item) => find_in_forest(self@.children, id_to_find@) == Some(item@),
                None => find_in_forest(self@.children, id_to_find@) is None,
            },
        decreases self, 0nat,
    {
        let ghost forest = self@.children;
        let mut i: usize = 0;
        while i < self.sub_items.len()
            invariant
                i <= self.sub_items.len(),
                forest == self@.children,
                find_in_forest(forest.take(i as int), id_to_find@) is None,
            decreases self.sub_items.len() - i,
        {
            let found = self.sub_items[i].find_by_id(id_to_find);
            proof {
                lemma_find_in_forest_step(forest, i as int, id_to_find@);
            }
            if found.is_some() {
                proof {
                    lemma_find_in_forest_prefix(forest, i + 1, id_to_find@);
                }
                return found;
            }
            i += 1;
        }
        assert(forest.take(i as int) =~= forest);
        None
    }

    /// The number of edges from this item down to the first item in
    /// pre-order that equals `item_to_find`, if there is one.
    pub fn find_level(&self, item_to_find: &ViewItem) -> (level: Option<usize>)
        requires
            self@.height() <= usize::MAX,
        ensures
            match level {
                Some(edges) => self@.level_of(item_to_find@.id) == Some(edges as nat),
                None => self@.level_of(item_to_find@.id) is None,
            },
        decreases self,
    {
        if self == item_to_find {
            return Some(0);
        }
        let ghost forest = self@.children;
        let ghost id = item_to_find@.id;
        let mut i: usize = 0;
        while i < self.sub_items.len()
            invariant
                i <= self.sub_items.len(),
                forest == self@.children,
                id == item_to_find@.id,
                self@.id != id,
                self@.height() <= usize::MAX,
                level_in_forest(forest.take(i as int), id) is None,
            decreases self.sub_items.len() - i,
        {
            proof {
                lemma_forest_height_bounds(forest, i as int);
            }
            let below = self.sub_items[i].find_level(item_to_find);
            proof {
                lemma_level_in_forest_step(forest, i as int, id);
            }
            match below {
                Some(sub_level) => {
                    proof {
                        lemma_level_in_forest_prefix(forest, i + 1, id);
                        lemma_level_within_height(forest[i as int], id);
                    }
                    return Some(sub_level + 1);
                },
                None => {},
            }
            i += 1;
        }
        assert(forest.take(i as int) =~= forest);
        None
    }

    /// This item followed by all of its descendants, in depth-first
    /// pre-order: each child's subtree in full before the next child.
    pub fn flatten(&self) -> (items: Vec<&ViewItem>)
        ensures
            trees_of(items@) == self@.flatten(),
        decreases self,
    {
        let ghost forest = self@.children;
        let mut items: Vec<&ViewItem> = Vec::new();
        items.push(self);
        assert(trees_of(items@) =~= seq![self@] + flatten_forest(forest.take(0)));
        let mut i: usize = 0;
        while i < self.sub_items.len()
            invariant
                i <= self.sub_items.len(),
                forest == self@.children,
                trees_of(items@) == seq![self@] + flatten_forest(forest.take(i as int)),
            decreases self.sub_items.len() - i,
        {
            let ghost before = items@;
            let mut below = self.sub_items[i].flatten();
            let ghost added = below@;
            items.append(&mut below);
            proof {
                lemma_flatten_forest_step(forest, i as int);
                assert(trees_of(before + added) =~= trees_of(before) + trees_of(added));
            }
            i += 1;
        }
        assert(forest.take(i as int) =~= forest);
        items
    }

    /// The width that this item asks of its column when shown `level` edges
    /// below the column's top.
    pub fn find_width(&self, level: usize) -> (width: usize)
        requires
            item_width(self@.name.len(), level as nat) <= usize::MAX,
        ensures
            width == item_width(self@.name.len(), level as nat),
    {
        let name_len: usize = self.name.as_str().unicode_len();
        if name_len > Column::MAX_COLUMN_WIDTH {
            Column::MAX_COLUMN_WIDTH
        } else if name_len < Column::MIN_COLUMN_WIDTH {
            Column::MIN_COLUMN_WIDTH
        } else {
            proof {
                Column::padding_is_a_bar();
            }
            Column::indent(level).as_str().unicode_len() + name_len
                + Column::PADDING.unicode_len()
        }
    }

    /// The number of lines that the label takes.
    pub fn text_height(&self) -> (lines: usize)
        ensures
            lines == self@.text_height(),
    {
        let name = self.name.as_str();
        let length: usize = name.unicode_len();
        let mut breaks: usize = 0;
        let mut open_line = false;
        for c in it: name.chars()
            invariant
                it.seq() == name@,
                length == name@.len(),
                breaks == newline_count(name@.take(it.index() as int)),
                open_line == (it.index() > 0 && name@[it.index() - 1] != '\n'),
                breaks + (if open_line { 1int } else { 0int }) <= it.index(),
        {
            proof {
                assert(name@.take(it.index() + 1).drop_last() =~= name@.take(it.index() as int));
            }
            if c == '\n' {
                breaks += 1;
                open_line = false;
            } else {
                open_line = true;
            }
        }
        assert(name@.take(name@.len() as int) =~= name@);
        if length == 0 {
            1
        } else if open_line {
            breaks + 1
        } else {
            breaks
        }
    }

    /// The children of this item, in insertion order.
    pub fn iter(&self) -> (children: std::vec::IntoIter<&ViewItem>)
        ensures
            trees_of(children.remaining()) == self@.children,
    {
        let mut walk = ViewItemIter { collection: self, index: 0 };
        let mut collected: Vec<&ViewItem> = Vec::new();
        assert(walk.remaining() =~= self@.children);
        loop
            invariant
                walk.collection == self,
                trees_of(collected@) + walk.remaining() == self@.children,
            ensures
                trees_of(collected@) == self@.children,
            decreases walk.remaining().len(),
        {
            match walk.next() {
                Some(child) => {
                    let ghost before = collected@;
                    collected.push(child);
                    assert(trees_of(before.push(child)) =~= trees_of(before).push(child@));
                    assert(trees_of(collected@) + walk.remaining() =~= self@.children);
                },
                None => {
                    assert(trees_of(collected@) + walk.remaining() =~= trees_of(collected@));
                    break ;
                },
            }
        }
        collected.into_iter()
    }

    /// Whether no path from this item down to a leaf has more than `limit`
    /// edges.
    pub fn height_within(&self, limit: usize) -> (within: bool)
        ensures
            within == (self@.height() <= limit),
        decreases self,
    {
        let ghost forest = self@.children;
        let mut i: usize = 0;
        while i < self.sub_items.len()
            invariant
                i <= self.sub_items.len(),
                forest == self@.children,
                forest_height(forest.take(i as int)) <= limit,
            decreases self.sub_items.len() - i,
        {
            proof {
                lemma_forest_height_bounds(forest, i as int);
                lemma_forest_height_step(forest, i as int);
            }
            if limit == 0 {
                return false;
            }
            if !self.sub_items[i].height_within(limit - 1) {
                return false;
            }
            i += 1;
        }
        assert(forest.take(i as int) =~= forest);
        true
    }
}

} // verus!
