use vstd::prelude::*;

verus! {

/// The mathematical value of an item: its identifier, its label and the
/// values of its children, in insertion order.
pub struct ItemTree {
    pub id: Seq<char>,
    pub name: Seq<char>,
    pub children: Seq<ItemTree>,
}

impl ItemTree {
    /// An item without children.
    pub open spec fn leaf(name: Seq<char>, id: Seq<char>) -> ItemTree {
        ItemTree { id, name, children: Seq::empty() }
    }

    /// The item with `child` appended after its present children.
    pub open spec fn with_child(self, child: ItemTree) -> ItemTree {
        ItemTree { children: self.children.push(child), ..self }
    }

    /// Two items are the same item when they carry the same identifier,
    /// whatever their labels and children are.
    pub open spec fn same_item(self, other: ItemTree) -> bool {
        self.id == other.id
    }

    /// The item followed by all of its descendants, in depth-first pre-order.
    pub open spec fn flatten(self) -> Seq<ItemTree>
        decreases self,
    {
        seq![self] + flatten_forest(self.children)
    }

    /// The first item in pre-order that carries `id`.
    pub open spec fn find(self, id: Seq<char>) -> Option<ItemTree>
        decreases self,
    {
        if self.id == id {
            Some(self)
        } else {
            find_in_forest(self.children, id)
        }
    }

    /// The number of edges from this item down to the first item in
    /// pre-order that carries `id`.
    pub open spec fn level_of(self, id: Seq<char>) -> Option<nat>
        decreases self,
    {
        if self.id == id {
            Some(0)
        } else {
            match level_in_forest(self.children, id) {
                Some(below) => Some(below + 1),
                None => None,
            }
        }
    }

    /// The item reached from this one by going down, for each number of
    /// `path` in turn, to the child at that place.
    pub open spec fn descend(self, path: Seq<int>) -> Option<ItemTree>
        decreases path.len(),
    {
        if path.len() == 0 {
            Some(self)
        } else if 0 <= path[0] < self.children.len() {
            self.children[path[0]].descend(path.drop_first())
        } else {
            None
        }
    }

    /// Whether no two items among this one and its descendants carry the
    /// same identifier.
    pub open spec fn has_distinct_ids(self) -> bool {
        ids_are_distinct(self.flatten())
    }

    /// The number of lines that the label takes: one more than its line
    /// breaks, where a break that ends the label opens no further line.
    /// Never less than one.
    pub open spec fn text_height(self) -> nat {
        if self.name.len() == 0 {
            1
        } else if self.name.last() == '\n' {
            newline_count(self.name)
        } else {
            newline_count(self.name) + 1
        }
    }

    /// The number of edges on the longest path from this item to a leaf.
    pub open spec fn height(self) -> nat
        decreases self,
    {
        forest_height(self.children)
    }
}

/// Whether no two of `items` carry the same identifier.
pub open spec fn ids_are_distinct(items: Seq<ItemTree>) -> bool {
    forall|i: int, j: int|
        0 <= i < j < items.len() ==> (#[trigger] items[i]).id != (#[trigger] items[j]).id
}

/// The number of items in the traversals of the first `upto` trees of
/// `forest`.
pub open spec fn count_before(forest: Seq<ItemTree>, upto: nat) -> nat
    decreases upto,
{
    if upto == 0 {
        0
    } else {
        count_before(forest, (upto - 1) as nat) + forest[upto - 1].flatten().len()
    }
}

/// The number of line breaks in `text`.
pub open spec fn newline_count(text: Seq<char>) -> nat
    decreases text.len(),
{
    if text.len() == 0 {
        0
    } else if text.last() == '\n' {
        newline_count(text.drop_last()) + 1
    } else {
        newline_count(text.drop_last())
    }
}

/// The pre-order traversals of the trees of `forest`, one after the other.
pub open spec fn flatten_forest(forest: Seq<ItemTree>) -> Seq<ItemTree>
    decreases forest,
{
    if forest.len() == 0 {
        Seq::empty()
    } else {
        flatten_forest(forest.drop_last()) + forest.last().flatten()
    }
}

/// What `find` gives in the first tree of `forest` that holds `id`.
pub open spec fn find_in_forest(forest: Seq<ItemTree>, id: Seq<char>) -> Option<ItemTree>
    decreases forest,
{
    if forest.len() == 0 {
        None
    } else {
        match find_in_forest(forest.drop_last(), id) {
            Some(found) => Some(found),
            None => forest.last().find(id),
        }
    }
}

/// What `level_of` gives in the first tree of `forest` that holds `id`.
pub open spec fn level_in_forest(forest: Seq<ItemTree>, id: Seq<char>) -> Option<nat>
    decreases forest,
{
    if forest.len() == 0 {
        None
    } else {
        match level_in_forest(forest.drop_last(), id) {
            Some(level) => Some(level),
            None => forest.last().level_of(id),
        }
    }
}

/// The number of levels that the trees of `forest` span: zero for no tree,
/// else one more than the height of the tallest.
pub open spec fn forest_height(forest: Seq<ItemTree>) -> nat
    decreases forest,
{
    if forest.len() == 0 {
        0
    } else {
        let before = forest_height(forest.drop_last());
        let last = forest.last().height() + 1;
        if before >= last {
            before
        } else {
            last
        }
    }
}

/// Searching one tree more: while no tree among the first `i` holds `id`,
/// the search of the first `i + 1` trees is the search of tree `i`.
pub proof fn lemma_find_in_forest_step(forest: Seq<ItemTree>, i: int, id: Seq<char>)
    requires
        0 <= i < forest.len(),
        find_in_forest(forest.take(i), id) is None,
    ensures
        find_in_forest(forest.take(i + 1), id) == forest[i].find(id),
{
    assert(forest.take(i + 1).drop_last() =~= forest.take(i));
}

/// A match among the first `n` trees is the match in the whole forest.
pub proof fn lemma_find_in_forest_prefix(forest: Seq<ItemTree>, n: int, id: Seq<char>)
    requires
        0 <= n <= forest.len(),
        find_in_forest(forest.take(n), id) is Some,
    ensures
        find_in_forest(forest, id) == find_in_forest(forest.take(n), id),
    decreases forest.len(),
{
    if n == forest.len() {
        assert(forest.take(n) =~= forest);
    } else {
        assert(forest.drop_last().take(n) =~= forest.take(n));
        lemma_find_in_forest_prefix(forest.drop_last(), n, id);
    }
}

/// Looking one tree further: while no tree among the first `i` holds `id`,
/// the level among the first `i + 1` trees is the level in tree `i`.
pub proof fn lemma_level_in_forest_step(forest: Seq<ItemTree>, i: int, id: Seq<char>)
    requires
        0 <= i < forest.len(),
        level_in_forest(forest.take(i), id) is None,
    ensures
        level_in_forest(forest.take(i + 1), id) == forest[i].level_of(id),
{
    assert(forest.take(i + 1).drop_last() =~= forest.take(i));
}

/// A level found among the first `n` trees is the level in the whole forest.
pub proof fn lemma_level_in_forest_prefix(forest: Seq<ItemTree>, n: int, id: Seq<char>)
    requires
        0 <= n <= forest.len(),
        level_in_forest(forest.take(n), id) is Some,
    ensures
        level_in_forest(forest, id) == level_in_forest(forest.take(n), id),
    decreases forest.len(),
{
    if n == forest.len() {
        assert(forest.take(n) =~= forest);
    } else {
        assert(forest.drop_last().take(n) =~= forest.take(n));
        lemma_level_in_forest_prefix(forest.drop_last(), n, id);
    }
}

/// Traversing one tree more appends its traversal.
pub proof fn lemma_flatten_forest_step(forest: Seq<ItemTree>, i: int)
    requires
        0 <= i < forest.len(),
    ensures
        flatten_forest(forest.take(i + 1)) == flatten_forest(forest.take(i)) + forest[i].flatten(),
{
    assert(forest.take(i + 1).drop_last() =~= forest.take(i));
}

/// Measuring one tree more: the height of the first `i + 1` trees is the
/// larger of the height of the first `i` and what tree `i` spans.
pub proof fn lemma_forest_height_step(forest: Seq<ItemTree>, i: int)
    requires
        0 <= i < forest.len(),
    ensures
        forest_height(forest.take(i + 1)) == if forest_height(forest.take(i)) >= forest[i].height()
            + 1 {
            forest_height(forest.take(i))
        } else {
            forest[i].height() + 1
        },
{
    assert(forest.take(i + 1).drop_last() =~= forest.take(i));
}

/// Every tree of a forest is lower than the forest.
pub proof fn lemma_forest_height_bounds(forest: Seq<ItemTree>, i: int)
    requires
        0 <= i < forest.len(),
    ensures
        forest[i].height() + 1 <= forest_height(forest),
    decreases forest.len(),
{
    if i < forest.len() - 1 {
        lemma_forest_height_bounds(forest.drop_last(), i);
    }
}

/// Every item of a traversal has a level in the tree that was traversed.
pub proof fn lemma_flattened_has_level(tree: ItemTree, k: int)
    requires
        0 <= k < tree.flatten().len(),
    ensures
        tree.level_of(tree.flatten()[k].id) is Some,
    decreases tree, 1nat,
{
    if k > 0 {
        lemma_forest_flattened_has_level(tree.children, k - 1);
    }
}

/// Every item of a forest's traversal has a level in one of its trees.
pub proof fn lemma_forest_flattened_has_level(forest: Seq<ItemTree>, k: int)
    requires
        0 <= k < flatten_forest(forest).len(),
    ensures
        level_in_forest(forest, flatten_forest(forest)[k].id) is Some,
    decreases forest, 0nat,
{
    let before = flatten_forest(forest.drop_last());
    if k < before.len() {
        lemma_forest_flattened_has_level(forest.drop_last(), k);
    } else {
        lemma_flattened_has_level(forest.last(), k - before.len());
    }
}

/// A level that is found lies within the height.
pub proof fn lemma_level_within_height(tree: ItemTree, id: Seq<char>)
    requires
        tree.level_of(id) is Some,
    ensures
        tree.level_of(id)->0 <= tree.height(),
    decreases tree, 1nat,
{
    if tree.id != id {
        lemma_level_in_forest_within_height(tree.children, id);
    }
}

/// A level that is found in a forest lies below the forest's height.
pub proof fn lemma_level_in_forest_within_height(forest: Seq<ItemTree>, id: Seq<char>)
    requires
        level_in_forest(forest, id) is Some,
    ensures
        level_in_forest(forest, id)->0 + 1 <= forest_height(forest),
    decreases forest, 0nat,
{
    if level_in_forest(forest.drop_last(), id) is Some {
        lemma_level_in_forest_within_height(forest.drop_last(), id);
    } else {
        lemma_level_within_height(forest.last(), id);
    }
}

} // verus!
