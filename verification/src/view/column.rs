use vstd::prelude::*;
use vstd::string::StringExecFns;
use crate::model::tree::ItemTree;
use crate::model::ViewItem;
use super::layout::{
    blanks, bullet_text, entry_text, indent_text, lemma_indent_len, lemma_printable_row,
    padding_text, printable, row_width, total_width, total_width_is_maximum, widest_of,
};

verus! {

/// One column of the report: a top-level item with everything below it,
/// and the column's place among the columns.
pub struct Column<'a> {
    pub top_item: &'a ViewItem,
    pub index: usize,
}

/// The value of a column: the tree that it shows, and its place.
pub struct ColumnView {
    pub root: ItemTree,
    pub index: nat,
}

impl<'a> View for Column<'a> {
    type V = ColumnView;

    open spec fn view(&self) -> ColumnView {
        ColumnView { root: self.top_item@, index: self.index as nat }
    }
}

impl<'a> Column<'a> {
    pub const MIN_COLUMN_WIDTH: usize = 10;

    pub const MAX_COLUMN_WIDTH: usize = 30;

    pub const PADDING: &'static str = " | ";

    /// The padding is a bar between two spaces.
    pub proof fn padding_is_a_bar()
        ensures
            Self::PADDING@ == padding_text(),
    {
        reveal_strlit(" | ");
        assert(" | "@ =~= padding_text());
    }

    /// The column of `top_item`, `index` columns from the left.
    pub fn new(top_item: &ViewItem, index: usize) -> (column: Column)
        ensures
            column@ == (ColumnView { root: top_item@, index: index as nat }),
    {
        Column { top_item, index }
    }

    /// The number of edges from the column's top down to the first entry
    /// that equals `view_item`, if there is one.
    pub fn find_level(&self, view_item: &ViewItem) -> (level: Option<usize>)
        requires
            self@.root.height() <= usize::MAX,
        ensures
            match level {
                Some(edges) => self@.root.level_of(view_item@.id) == Some(edges as nat),
                None => self@.root.level_of(view_item@.id) is None,
            },
    {
        self.top_item.find_level(view_item)
    }

    /// Whether the column's widths can be computed in machine integers.
    pub fn is_printable(&self) -> (fits: bool)
        ensures
            fits == printable(self@.root),
    {
        proof {
            lemma_indent_len(self@.root.height());
            Self::padding_is_a_bar();
        }
        let widest_entry: usize = Self::MAX_COLUMN_WIDTH + 3;
        self.top_item.height_within((usize::MAX - widest_entry) / 3)
    }

    /// The width of the column: the greatest width that one of its entries
    /// asks for, each entry at the level that the column finds for it.
    pub fn find_total_width(&self) -> (width: usize)
        requires
            printable(self@.root),
        ensures
            width == total_width(self@.root),
            forall|row: int|
                0 <= row < self@.root.flatten().len() ==> #[trigger] row_width(self@.root, row)
                    <= width,
            exists|row: int|
                0 <= row < self@.root.flatten().len() && #[trigger] row_width(self@.root, row)
                    == width,
    {
        let ghost root = self@.root;
        proof {
            total_width_is_maximum(root);
        }
        let mut max_width: usize = 0;
        let mut entries = self.iter();
        let ghost mut seen: nat = 0;
        loop
            invariant
                root == self@.root,
                printable(root),
                seen <= root.flatten().len(),
                entries@ == root.flatten().skip(seen as int),
                max_width == widest_of(root, seen),
            ensures
                seen == root.flatten().len(),
            decreases root.flatten().len() - seen,
        {
            match entries.next() {
                Some(item) => {
                    proof {
                        lemma_printable_row(root, seen as int);
                        assert(root.flatten().skip(seen as int).drop_first() =~= root.flatten().skip(
                            seen as int + 1,
                        ));
                    }
                    let level: usize = self.find_level(item).unwrap();
                    let width: usize = item.find_width(level);
                    if width > max_width {
                        max_width = width;
                    }
                    proof {
                        seen = seen + 1;
                    }
                },
                None => {
                    break ;
                },
            }
        }
        max_width
    }

    /// The indentation of an entry `level` edges below the top of a column.
    pub fn indent(level: usize) -> (text: String)
        ensures
            text@ == indent_text(level as nat),
    {
        if level == 0 {
            String::new()
        } else if level == 1 {
            proof {
                reveal_strlit(" - ");
                assert(" - "@ =~= indent_text(1));
            }
            String::from_str(" - ")
        } else {
            let mut indent = String::new();
            let mut done: usize = 0;
            while done < level - 1
                invariant
                    done <= level - 1,
                    indent@ == blanks((3 * done) as nat),
                decreases level - 1 - done,
            {
                proof {
                    reveal_strlit("   ");
                    assert(blanks((3 * done) as nat) + "   "@ =~= blanks((3 * (done + 1)) as nat));
                }
                indent.append("   ");
                done += 1;
            }
            proof {
                reveal_strlit(" - ");
                assert(" - "@ =~= bullet_text());
            }
            indent.append(" - ");
            indent
        }
    }

    /// An entry as it is shown: the indentation for `level`, then the
    /// item's label.
    pub fn format_sub_item(view_item: ViewItem, level: usize) -> (text: String)
        ensures
            text@ == entry_text(view_item@.name, level as nat),
    {
        Self::format_entry(&view_item, level)
    }

    /// As `format_sub_item`, for an item that stays where it is.
    pub fn format_entry(view_item: &ViewItem, level: usize) -> (text: String)
        ensures
            text@ == entry_text(view_item@.name, level as nat),
    {
        let mut formatted = Self::indent(level);
        formatted.append(view_item.name.as_str());
        formatted
    }
}

} // verus!
