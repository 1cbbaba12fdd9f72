use vstd::prelude::*;
use crate::model::tree::{lemma_flattened_has_level, lemma_level_within_height, ItemTree};
use super::column::Column;

verus! {

/// `count` spaces.
pub open spec fn blanks(count: nat) -> Seq<char> {
    Seq::new(count, |i: int| ' ')
}

/// The marker that ends an indentation: a dash between two spaces.
pub open spec fn bullet_text() -> Seq<char> {
    seq![' ', '-', ' ']
}

/// The token between two columns: a bar between two spaces.
pub open spec fn padding_text() -> Seq<char> {
    seq![' ', '|', ' ']
}

/// The indentation of an entry `level` edges below the top of its column:
/// nothing at the top, else three spaces for each level above the first,
/// then the marker.
pub open spec fn indent_text(level: nat) -> Seq<char> {
    if level == 0 {
        Seq::empty()
    } else {
        blanks((3 * (level - 1)) as nat) + bullet_text()
    }
}

/// The width that an entry asks of its column. A label longer than the
/// widest column or shorter than the narrowest is set to that bound as it
/// is; only a label in between counts its indentation and the padding.
pub open spec fn item_width(name_len: nat, level: nat) -> nat {
    if name_len > Column::MAX_COLUMN_WIDTH {
        Column::MAX_COLUMN_WIDTH as nat
    } else if name_len < Column::MIN_COLUMN_WIDTH {
        Column::MIN_COLUMN_WIDTH as nat
    } else {
        indent_text(level).len() + name_len + padding_text().len()
    }
}

/// An entry as it is shown: the indentation, then the label.
pub open spec fn entry_text(name: Seq<char>, level: nat) -> Seq<char> {
    indent_text(level) + name
}

/// The level at which a column shows entry `row` of its traversal: the
/// level that the column's top finds for the entry's identifier.
pub open spec fn row_level(root: ItemTree, row: int) -> nat {
    match root.level_of(root.flatten()[row].id) {
        Some(level) => level,
        None => 0,
    }
}

/// The width that entry `row` of a column's traversal asks for.
pub open spec fn row_width(root: ItemTree, row: int) -> nat {
    item_width(root.flatten()[row].name.len(), row_level(root, row))
}

/// The greatest width that one of the first `rows` entries asks for.
pub open spec fn widest_of(root: ItemTree, rows: nat) -> nat
    decreases rows,
{
    if rows == 0 {
        0
    } else {
        let before = widest_of(root, (rows - 1) as nat);
        let last = row_width(root, rows - 1);
        if before >= last {
            before
        } else {
            last
        }
    }
}

/// The width of a column: the greatest width that one of its entries asks
/// for.
pub open spec fn total_width(root: ItemTree) -> nat {
    widest_of(root, root.flatten().len())
}

/// Whether the widths of a column can be computed in machine integers: the
/// indentation of its deepest level, a label of the greatest length that
/// is counted, and the padding fit a `usize` together.
pub open spec fn printable(root: ItemTree) -> bool {
    indent_text(root.height()).len() + Column::MAX_COLUMN_WIDTH + padding_text().len()
        <= usize::MAX
}

/// The first line of every report.
pub open spec fn title_text() -> Seq<char> {
    seq!['D', 'e', 'w', ' ', 'I', 't', '!']
}

/// The end of a line.
pub open spec fn line_end() -> Seq<char> {
    seq!['\n']
}

/// `text`, filled up with spaces to `width` characters where it is shorter.
pub open spec fn pad_to(text: Seq<char>, width: nat) -> Seq<char> {
    if text.len() >= width {
        text
    } else {
        text + blanks((width - text.len()) as nat)
    }
}

/// The width to which a column fills its entries up: its total width less
/// the padding that follows each entry.
pub open spec fn body_width(root: ItemTree) -> nat {
    if total_width(root) >= padding_text().len() {
        (total_width(root) - padding_text().len()) as nat
    } else {
        0
    }
}

/// What a column shows in line `row`: the entry at that place of its
/// traversal, or nothing where the traversal has ended.
pub open spec fn row_entry(root: ItemTree, row: int) -> Seq<char> {
    if 0 <= row < root.flatten().len() {
        entry_text(root.flatten()[row].name, row_level(root, row))
    } else {
        Seq::empty()
    }
}

/// Line `row` of a column: what it shows there, filled up to the column's
/// body width, then the padding.
pub open spec fn cell_text(root: ItemTree, row: int) -> Seq<char> {
    pad_to(row_entry(root, row), body_width(root)) + padding_text()
}

/// The first `rows` lines of a column, each with its line end.
pub open spec fn column_lines(root: ItemTree, rows: nat) -> Seq<char>
    decreases rows,
{
    if rows == 0 {
        Seq::empty()
    } else {
        column_lines(root, (rows - 1) as nat) + cell_text(root, rows - 1) + line_end()
    }
}

/// A column on its own: one line for each entry of its traversal.
pub open spec fn column_text(root: ItemTree) -> Seq<char> {
    column_lines(root, root.flatten().len())
}

/// What follows the label at place `index` in a headline of `count`
/// labels: the padding, or after the last label the line end.
pub open spec fn item_ending(count: nat, index: nat) -> Seq<char> {
    if index + 1 < count {
        padding_text()
    } else {
        line_end()
    }
}

/// The headline as far as its first `upto` labels: the labels of the
/// top-level items as they are, each with what follows it.
pub open spec fn headline(forest: Seq<ItemTree>, upto: nat) -> Seq<char>
    decreases upto,
{
    if upto == 0 {
        Seq::empty()
    } else {
        headline(forest, (upto - 1) as nat) + forest[upto - 1].name + item_ending(
            forest.len(),
            (upto - 1) as nat,
        )
    }
}

/// The number of lines of the longest among the first `upto` columns.
pub open spec fn row_count(forest: Seq<ItemTree>, upto: nat) -> nat
    decreases upto,
{
    if upto == 0 {
        0
    } else {
        let before = row_count(forest, (upto - 1) as nat);
        let last = forest[upto - 1].flatten().len();
        if before >= last {
            before
        } else {
            last
        }
    }
}

/// The line of a column that stands in line `row` of a report of `rows`
/// lines. The columns of a report end together in its last line, so a
/// column begins as many lines further down as it has fewer lines than the
/// report; and since its top stands in the headline, it shows nothing down
/// to there. Where it shows nothing, this is the number of its lines: a
/// line that it does not have.
pub open spec fn shown_line(root: ItemTree, row: int, rows: nat) -> int {
    let lines = root.flatten().len();
    if row > rows - lines {
        row - (rows - lines)
    } else {
        lines as int
    }
}

/// Line `row` of the first `upto` columns, side by side, in a report of
/// `rows` lines.
pub open spec fn row_cells(forest: Seq<ItemTree>, row: int, rows: nat, upto: nat) -> Seq<char>
    decreases upto,
{
    if upto == 0 {
        Seq::empty()
    } else {
        row_cells(forest, row, rows, (upto - 1) as nat) + cell_text(
            forest[upto - 1],
            shown_line(forest[upto - 1], row, rows),
        )
    }
}

/// The lines below the headline in a report of `rows` lines, up to line
/// `upto` exclusive: in each the columns side by side, then the line end.
/// Line 0, the tops of the columns, is the headline's and is not among
/// them.
pub open spec fn sub_rows(forest: Seq<ItemTree>, rows: nat, upto: nat) -> Seq<char>
    decreases upto,
{
    if upto <= 1 {
        Seq::empty()
    } else {
        sub_rows(forest, rows, (upto - 1) as nat) + row_cells(
            forest,
            upto - 1,
            rows,
            forest.len(),
        ) + line_end()
    }
}

/// The whole report: the title, the headline, and below it as many lines
/// as the longest column has entries below its top.
pub open spec fn report_text(forest: Seq<ItemTree>) -> Seq<char> {
    let rows = row_count(forest, forest.len());
    title_text() + line_end() + headline(forest, forest.len()) + sub_rows(forest, rows, rows)
}

/// No column has more lines than the longest.
pub proof fn lemma_row_count_bounds(forest: Seq<ItemTree>, upto: nat, c: int)
    requires
        0 <= c < upto,
    ensures
        forest[c].flatten().len() <= row_count(forest, upto),
    decreases upto,
{
    if c < upto - 1 {
        lemma_row_count_bounds(forest, (upto - 1) as nat, c);
    }
}

/// Columns without entries below their tops have one line each.
proof fn lemma_row_count_of_leaves(forest: Seq<ItemTree>, upto: nat)
    requires
        upto <= forest.len(),
        forall|i: int| 0 <= i < forest.len() ==> (#[trigger] forest[i]).children.len() == 0,
    ensures
        row_count(forest, upto) <= 1,
    decreases upto,
{
    if upto > 0 {
        lemma_row_count_of_leaves(forest, (upto - 1) as nat);
        assert(forest[upto - 1].flatten() =~= seq![forest[upto - 1]]);
    }
}

/// Where no top-level item has children, the report is the title and the
/// headline; without any item, the title alone.
pub proof fn report_of_leaves(forest: Seq<ItemTree>)
    requires
        forall|i: int| 0 <= i < forest.len() ==> (#[trigger] forest[i]).children.len() == 0,
    ensures
        report_text(forest) == title_text() + line_end() + headline(forest, forest.len()),
        forest.len() == 0 ==> report_text(forest) == title_text() + line_end(),
{
    lemma_row_count_of_leaves(forest, forest.len());
    assert(report_text(forest) =~= title_text() + line_end() + headline(forest, forest.len()));
    if forest.len() == 0 {
        assert(report_text(forest) =~= title_text() + line_end());
    }
}

/// A label shorter than ten characters asks for a width of ten and one
/// longer than thirty for a width of thirty, at whatever level it stands.
/// A label in between asks for its own length, three characters of
/// indentation for each level, and three of padding: at the top of a
/// column, for its length and three.
pub proof fn width_is_clamped_first(name_len: nat, level: nat)
    ensures
        name_len < 10 ==> item_width(name_len, level) == 10,
        name_len > 30 ==> item_width(name_len, level) == 30,
        10 <= name_len <= 30 ==> item_width(name_len, level) == 3 * level + name_len + 3,
        10 <= name_len <= 30 ==> item_width(name_len, 0) == name_len + 3,
{
    lemma_indent_len(level);
}

/// No entry among the first `rows` asks for more than the widest of them,
/// and one of them asks for exactly that.
proof fn lemma_widest_of(root: ItemTree, rows: nat) -> (widest: int)
    requires
        rows > 0,
    ensures
        0 <= widest < rows,
        row_width(root, widest) == widest_of(root, rows),
        forall|row: int| 0 <= row < rows ==> #[trigger] row_width(root, row) <= widest_of(root, rows),
    decreases rows,
{
    if rows == 1 {
        0
    } else {
        let before = lemma_widest_of(root, (rows - 1) as nat);
        if widest_of(root, (rows - 1) as nat) >= row_width(root, rows - 1) {
            before
        } else {
            rows - 1
        }
    }
}

/// The width of a column is the maximum of the widths that the entries of
/// its traversal ask for, each at the level that the column's top finds
/// for it: no entry asks for more, and the entry `widest` asks for exactly
/// that.
pub proof fn total_width_is_maximum(root: ItemTree) -> (widest: int)
    ensures
        0 <= widest < root.flatten().len(),
        row_width(root, widest) == total_width(root),
        forall|row: int|
            0 <= row < root.flatten().len() ==> #[trigger] row_width(root, row) <= total_width(
                root,
            ),
{
    lemma_widest_of(root, root.flatten().len())
}

/// A line of a column is as wide as the column wherever the entry fits
/// the column's body, and wider only by what the entry has too much.
pub proof fn cell_fills_the_column(root: ItemTree, row: int)
    ensures
        cell_text(root, row).len() == if row_entry(root, row).len() <= body_width(root) {
            total_width(root)
        } else {
            row_entry(root, row).len() + padding_text().len()
        },
{
    let widest = total_width_is_maximum(root);
    width_is_clamped_first(root.flatten()[widest].name.len(), row_level(root, widest));
}

/// An indentation takes three characters for each level.
pub proof fn lemma_indent_len(level: nat)
    ensures
        indent_text(level).len() == 3 * level,
{
}

/// In a printable column every entry has a level, and its level and width
/// fit a `usize`.
pub proof fn lemma_printable_row(root: ItemTree, row: int)
    requires
        printable(root),
        0 <= row < root.flatten().len(),
    ensures
        root.level_of(root.flatten()[row].id) == Some(row_level(root, row)),
        row_level(root, row) <= root.height() <= usize::MAX,
        row_width(root, row) <= usize::MAX,
{
    let id = root.flatten()[row].id;
    lemma_flattened_has_level(root, row);
    lemma_level_within_height(root, id);
    lemma_indent_len(root.height());
    lemma_indent_len(row_level(root, row));
}

} // verus!
