//! What holds of traversals, searches and levels in every tree.

use vstd::prelude::*;
use super::tree::{
    count_before, find_in_forest, flatten_forest, ids_are_distinct, level_in_forest, ItemTree,
};

verus! {

/// The count over a prefix of a forest does not depend on the trees behind
/// the prefix.
proof fn lemma_count_before_of_prefix(forest: Seq<ItemTree>, n: int, upto: nat)
    requires
        upto <= n <= forest.len(),
    ensures
        count_before(forest.take(n), upto) == count_before(forest, upto),
    decreases upto,
{
    if upto > 0 {
        lemma_count_before_of_prefix(forest, n, (upto - 1) as nat);
    }
}

/// A forest's traversal is the traversals of its trees one after the other:
/// it has as many items as the trees' traversals together, and the part
/// behind the traversals of the first `c` trees is the traversal of tree
/// `c`.
pub proof fn forest_flatten_is_concatenation(forest: Seq<ItemTree>, c: int)
    requires
        0 <= c < forest.len(),
    ensures
        flatten_forest(forest).len() == count_before(forest, forest.len()),
        count_before(forest, c as nat) + forest[c].flatten().len() == count_before(
            forest,
            (c + 1) as nat,
        ) <= flatten_forest(forest).len(),
        flatten_forest(forest).subrange(
            count_before(forest, c as nat) as int,
            count_before(forest, (c + 1) as nat) as int,
        ) == forest[c].flatten(),
    decreases forest.len(),
{
    let front = forest.drop_last();
    let last = forest.len() - 1;
    lemma_count_before_of_prefix(forest, last, last as nat);
    if front.len() > 0 {
        forest_flatten_is_concatenation(front, 0);
    }
    assert(flatten_forest(front).len() == count_before(forest, last as nat));
    if c < last {
        forest_flatten_is_concatenation(front, c);
        lemma_count_before_of_prefix(forest, last, c as nat);
        lemma_count_before_of_prefix(forest, last, (c + 1) as nat);
        assert(flatten_forest(forest).subrange(
            count_before(forest, c as nat) as int,
            count_before(forest, (c + 1) as nat) as int,
        ) =~= flatten_forest(front).subrange(
            count_before(forest, c as nat) as int,
            count_before(forest, (c + 1) as nat) as int,
        ));
    } else {
        assert(flatten_forest(forest).subrange(
            count_before(forest, c as nat) as int,
            count_before(forest, (c + 1) as nat) as int,
        ) =~= forest[c].flatten());
    }
}

/// A traversal gives the item itself first and then, for each child in
/// insertion order, the child's whole traversal; so it has one item more
/// than the traversals of the children together.
pub proof fn flatten_is_preorder(tree: ItemTree)
    ensures
        tree.flatten().first() == tree,
        tree.flatten().len() == 1 + count_before(tree.children, tree.children.len()),
        forall|c: int|
            #![trigger tree.children[c]]
            0 <= c < tree.children.len() ==> tree.flatten().subrange(
                1 + count_before(tree.children, c as nat) as int,
                1 + count_before(tree.children, (c + 1) as nat) as int,
            ) == tree.children[c].flatten(),
{
    let forest = tree.children;
    if forest.len() > 0 {
        forest_flatten_is_concatenation(forest, 0);
    }
    assert forall|c: int| #![trigger tree.children[c]] 0 <= c < forest.len() implies tree.flatten().subrange(
        1 + count_before(forest, c as nat) as int,
        1 + count_before(forest, (c + 1) as nat) as int,
    ) == forest[c].flatten() by {
        forest_flatten_is_concatenation(forest, c);
        assert(tree.flatten().subrange(
            1 + count_before(forest, c as nat) as int,
            1 + count_before(forest, (c + 1) as nat) as int,
        ) =~= flatten_forest(forest).subrange(
            count_before(forest, c as nat) as int,
            count_before(forest, (c + 1) as nat) as int,
        ));
    }
}

/// A leaf is all of its traversal, has no height, and holds its own
/// identifier and no other.
pub proof fn leaf_is_alone(name: Seq<char>, id: Seq<char>, other: Seq<char>)
    ensures
        ItemTree::leaf(name, id).flatten() == seq![ItemTree::leaf(name, id)],
        ItemTree::leaf(name, id).height() == 0,
        other != id ==> ItemTree::leaf(name, id).level_of(other) is None,
        other != id ==> ItemTree::leaf(name, id).find(other) is None,
{
    assert(ItemTree::leaf(name, id).flatten() =~= seq![ItemTree::leaf(name, id)]);
}

/// What appending a child does: the child's traversal follows the
/// traversal so far; the height is at least one more than the child's;
/// and an identifier that was not held before is searched for in the
/// child, one level further down.
pub proof fn appending_a_child(tree: ItemTree, child: ItemTree, id: Seq<char>)
    ensures
        tree.with_child(child).flatten().first() == tree.with_child(child),
        tree.with_child(child).flatten().drop_first() == tree.flatten().drop_first()
            + child.flatten(),
        tree.with_child(child).height() == if tree.height() >= child.height() + 1 {
            tree.height()
        } else {
            child.height() + 1
        },
        tree.with_child(child).level_of(id) == match tree.level_of(id) {
            Some(level) => Some(level),
            None => match child.level_of(id) {
                Some(below) => Some(below + 1),
                None => None,
            },
        },
        tree.with_child(child).find(id) == if tree.id == id {
            Some(tree.with_child(child))
        } else {
            match tree.find(id) {
                Some(found) => Some(found),
                None => child.find(id),
            }
        },
{
    let grown = tree.with_child(child);
    assert(grown.children.drop_last() =~= tree.children);
    assert(grown.flatten().drop_first() =~= tree.flatten().drop_first() + child.flatten());
}

/// An item is at level zero of itself.
pub proof fn level_of_self_is_zero(tree: ItemTree)
    ensures
        tree.level_of(tree.id) == Some(0nat),
        tree.find(tree.id) == Some(tree),
{
}

/// A search finds an item exactly where a level is found, and what it
/// finds carries the identifier that was asked for.
pub proof fn find_agrees_with_level(tree: ItemTree, id: Seq<char>)
    ensures
        tree.find(id) is Some <==> tree.level_of(id) is Some,
        tree.find(id) matches Some(found) ==> found.id == id,
    decreases tree, 1nat,
{
    if tree.id != id {
        forest_find_agrees_with_level(tree.children, id);
    }
}

/// As `find_agrees_with_level`, for the search of a forest.
pub proof fn forest_find_agrees_with_level(forest: Seq<ItemTree>, id: Seq<char>)
    ensures
        find_in_forest(forest, id) is Some <==> level_in_forest(forest, id) is Some,
        find_in_forest(forest, id) matches Some(found) ==> found.id == id,
    decreases forest, 0nat,
{
    if forest.len() > 0 {
        forest_find_agrees_with_level(forest.drop_last(), id);
        find_agrees_with_level(forest.last(), id);
    }
}

/// Where a forest finds no level for `id`, none of its trees does.
pub proof fn forest_without_level(forest: Seq<ItemTree>, j: int, id: Seq<char>)
    requires
        level_in_forest(forest, id) is None,
        0 <= j < forest.len(),
    ensures
        forest[j].level_of(id) is None,
    decreases forest.len(),
{
    if j < forest.len() - 1 {
        forest_without_level(forest.drop_last(), j, id);
    }
}

/// The first tree of a forest that holds `id`: no tree before it holds
/// `id`, and what the forest finds is what that tree finds.
pub proof fn first_holder(forest: Seq<ItemTree>, id: Seq<char>) -> (c: int)
    requires
        level_in_forest(forest, id) is Some,
    ensures
        0 <= c < forest.len(),
        forall|j: int| 0 <= j < c ==> (#[trigger] forest[j]).level_of(id) is None,
        forest[c].level_of(id) == level_in_forest(forest, id),
        forest[c].find(id) == find_in_forest(forest, id),
    decreases forest.len(),
{
    let front = forest.drop_last();
    forest_find_agrees_with_level(front, id);
    if level_in_forest(front, id) is Some {
        let c = first_holder(front, id);
        assert forall|j: int| 0 <= j < c implies (#[trigger] forest[j]).level_of(id) is None by {
            assert(front[j] == forest[j]);
        }
        c
    } else {
        assert forall|j: int| 0 <= j < forest.len() - 1 implies (#[trigger] forest[j]).level_of(
            id,
        ) is None by {
            forest_without_level(front, j, id);
        }
        forest.len() - 1
    }
}

/// Where no tree before tree `c` holds `id`, the forest finds what tree
/// `c` finds, if that tree holds `id`.
pub proof fn holder_gives_forest_level(forest: Seq<ItemTree>, c: int, id: Seq<char>)
    requires
        0 <= c < forest.len(),
        forall|j: int| 0 <= j < c ==> (#[trigger] forest[j]).level_of(id) is None,
        forest[c].level_of(id) is Some,
    ensures
        level_in_forest(forest, id) == forest[c].level_of(id),
    decreases forest.len(),
{
    let front = forest.drop_last();
    if c < forest.len() - 1 {
        holder_gives_forest_level(front, c, id);
    } else {
        if level_in_forest(front, id) is Some {
            let earlier = first_holder(front, id);
            assert(forest[earlier].level_of(id) is None);
        }
    }
}

/// A level that is found is the length of a way down: the path leads from
/// the item to what the search for `id` finds.
pub proof fn level_is_path_length(tree: ItemTree, id: Seq<char>) -> (path: Seq<int>)
    requires
        tree.level_of(id) is Some,
    ensures
        tree.level_of(id) == Some(path.len()),
        tree.descend(path) == tree.find(id),
        tree.find(id) matches Some(found) && found.id == id,
    decreases tree,
{
    find_agrees_with_level(tree, id);
    if tree.id == id {
        Seq::empty()
    } else {
        let c = first_holder(tree.children, id);
        let below = level_is_path_length(tree.children[c], id);
        let path = seq![c] + below;
        assert(path.drop_first() =~= below);
        path
    }
}

/// Every item that has a level stands in the traversal.
pub proof fn level_has_place(tree: ItemTree, id: Seq<char>) -> (k: int)
    requires
        tree.level_of(id) is Some,
    ensures
        0 <= k < tree.flatten().len(),
        tree.flatten()[k].id == id,
    decreases tree,
{
    if tree.id == id {
        0
    } else {
        let c = first_holder(tree.children, id);
        let below = level_has_place(tree.children[c], id);
        lemma_place_below(tree, c, below)
    }
}

/// No level is found exactly where no item of the traversal carries the
/// identifier.
pub proof fn level_is_none_iff_absent(tree: ItemTree, id: Seq<char>)
    ensures
        tree.level_of(id) is None <==> forall|k: int|
            0 <= k < tree.flatten().len() ==> (#[trigger] tree.flatten()[k]).id != id,
{
    if tree.level_of(id) is Some {
        let k = level_has_place(tree, id);
        assert(tree.flatten()[k].id == id);
    } else {
        assert forall|k: int| 0 <= k < tree.flatten().len() implies (#[trigger] tree.flatten()[k]).id
            != id by {
            super::tree::lemma_flattened_has_level(tree, k);
        }
    }
}

/// What a way down reaches stands in the traversal.
pub proof fn descend_has_place(tree: ItemTree, path: Seq<int>) -> (k: int)
    requires
        tree.descend(path) is Some,
    ensures
        0 <= k < tree.flatten().len(),
        Some(tree.flatten()[k]) == tree.descend(path),
        path.len() > 0 ==> k > 0,
    decreases path.len(),
{
    if path.len() == 0 {
        0
    } else {
        let c = path[0];
        let below = descend_has_place(tree.children[c], path.drop_first());
        lemma_place_below(tree, c, below)
    }
}

/// The counts before the trees of a forest grow from tree to tree.
proof fn lemma_count_before_grows(forest: Seq<ItemTree>, a: nat, b: nat)
    requires
        a <= b <= forest.len(),
    ensures
        count_before(forest, a) <= count_before(forest, b),
    decreases b,
{
    if a < b {
        lemma_count_before_grows(forest, a, (b - 1) as nat);
    }
}

/// Item `k` of the traversal of child `c` stands in the traversal of the
/// tree, behind the top and the traversals of the children before `c`.
proof fn lemma_place_below(tree: ItemTree, c: int, k: int) -> (place: int)
    requires
        0 <= c < tree.children.len(),
        0 <= k < tree.children[c].flatten().len(),
    ensures
        place == 1 + count_before(tree.children, c as nat) + k,
        place < 1 + count_before(tree.children, (c + 1) as nat) <= tree.flatten().len(),
        tree.flatten()[place] == tree.children[c].flatten()[k],
{
    let start = 1 + count_before(tree.children, c as nat) as int;
    let end = 1 + count_before(tree.children, (c + 1) as nat) as int;
    forest_flatten_is_concatenation(tree.children, c);
    assert(flatten_forest(tree.children).subrange(start - 1, end - 1)[k] == flatten_forest(
        tree.children,
    )[start - 1 + k]);
    start + k
}

/// Every place of a traversal behind the first lies in the traversal of
/// one child: of child `c`, at place `m` of it.
proof fn lemma_place_owner(tree: ItemTree, place: int, upto: int) -> (owner: (int, int))
    requires
        0 <= upto <= tree.children.len(),
        1 <= place < 1 + count_before(tree.children, upto as nat),
    ensures
        0 <= owner.0 < upto,
        0 <= owner.1 < tree.children[owner.0].flatten().len(),
        place == 1 + count_before(tree.children, owner.0 as nat) + owner.1,
    decreases upto,
{
    let start = 1 + count_before(tree.children, (upto - 1) as nat) as int;
    if place >= start {
        (upto - 1, place - start)
    } else {
        lemma_place_owner(tree, place, upto - 1)
    }
}

/// A search gives the first item of the traversal that carries the
/// identifier: the item at place `k`, before which no item carries it.
pub proof fn find_is_first_in_preorder(tree: ItemTree, id: Seq<char>) -> (k: int)
    requires
        tree.find(id) is Some,
    ensures
        0 <= k < tree.flatten().len(),
        tree.find(id) == Some(tree.flatten()[k]),
        tree.flatten()[k].id == id,
        forall|j: int| 0 <= j < k ==> (#[trigger] tree.flatten()[j]).id != id,
    decreases tree,
{
    find_agrees_with_level(tree, id);
    if tree.id == id {
        0
    } else {
        let c = first_holder(tree.children, id);
        find_agrees_with_level(tree.children[c], id);
        let below = find_is_first_in_preorder(tree.children[c], id);
        let k = lemma_place_below(tree, c, below);
        flatten_is_preorder(tree);
        assert forall|j: int| 0 <= j < k implies (#[trigger] tree.flatten()[j]).id != id by {
            if j > 0 {
                lemma_count_before_grows(tree.children, (c + 1) as nat, tree.children.len());
                let (owner, m) = lemma_place_owner(tree, j, tree.children.len() as int);
                lemma_place_below(tree, owner, m);
                if owner < c {
                    level_is_none_iff_absent(tree.children[owner], id);
                } else if owner > c {
                    lemma_count_before_grows(tree.children, (c + 1) as nat, owner as nat);
                }
            }
        }
        k
    }
}

/// Where the identifiers of a tree are distinct, those of each child are.
proof fn lemma_distinct_ids_of_child(tree: ItemTree, c: int)
    requires
        tree.has_distinct_ids(),
        0 <= c < tree.children.len(),
    ensures
        tree.children[c].has_distinct_ids(),
{
    let part = tree.children[c].flatten();
    assert forall|i: int, j: int| 0 <= i < j < part.len() implies (#[trigger] part[i]).id != (
    #[trigger] part[j]).id by {
        let a = lemma_place_below(tree, c, i);
        let b = lemma_place_below(tree, c, j);
        assert(tree.flatten()[a].id != tree.flatten()[b].id);
    }
}

/// Where the identifiers of a tree are distinct, no item below a child
/// shares its identifier with the tree's top.
proof fn lemma_distinct_from_top(tree: ItemTree, c: int, k: int)
    requires
        tree.has_distinct_ids(),
        0 <= c < tree.children.len(),
        0 <= k < tree.children[c].flatten().len(),
    ensures
        tree.children[c].flatten()[k].id != tree.id,
{
    let place = lemma_place_below(tree, c, k);
    assert(tree.flatten()[0].id != tree.flatten()[place].id);
}

/// Where the identifiers of a tree are distinct, no item below a child
/// shares its identifier with an item below an earlier child.
proof fn lemma_distinct_from_earlier(tree: ItemTree, j: int, m: int, c: int, k: int)
    requires
        tree.has_distinct_ids(),
        0 <= j < c < tree.children.len(),
        0 <= m < tree.children[j].flatten().len(),
        0 <= k < tree.children[c].flatten().len(),
    ensures
        tree.children[j].flatten()[m].id != tree.children[c].flatten()[k].id,
{
    let earlier = lemma_place_below(tree, j, m);
    let later = lemma_place_below(tree, c, k);
    lemma_count_before_grows(tree.children, (j + 1) as nat, c as nat);
    assert(tree.flatten()[earlier].id != tree.flatten()[later].id);
}

/// Where no two items of a tree carry one identifier, the level of an item
/// is the number of edges on the way down to it: whatever path reaches an
/// item, the level found for that item is the path's length.
pub proof fn path_length_is_level(tree: ItemTree, path: Seq<int>)
    requires
        tree.has_distinct_ids(),
        tree.descend(path) is Some,
    ensures
        tree.level_of(tree.descend(path)->0.id) == Some(path.len()),
        tree.find(tree.descend(path)->0.id) == tree.descend(path),
    decreases path.len(),
{
    if path.len() > 0 {
        let c = path[0];
        let child = tree.children[c];
        let target = child.descend(path.drop_first())->0;
        lemma_distinct_ids_of_child(tree, c);
        path_length_is_level(child, path.drop_first());
        let k = descend_has_place(child, path.drop_first());
        lemma_distinct_from_top(tree, c, k);
        assert forall|j: int| 0 <= j < c implies (#[trigger] tree.children[j]).level_of(
            target.id,
        ) is None by {
            if tree.children[j].level_of(target.id) is Some {
                let m = level_has_place(tree.children[j], target.id);
                lemma_distinct_from_earlier(tree, j, m, c, k);
            }
        }
        holder_gives_forest_level(tree.children, c, target.id);
        forest_find_agrees_with_level(tree.children, target.id);
        let first = first_holder(tree.children, target.id);
        assert(first == c);
    }
}

} // verus!
