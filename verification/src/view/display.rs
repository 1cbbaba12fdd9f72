use vstd::prelude::*;
use vstd::string::{StrSliceExecFns, StringExecFns};
use crate::model::tree::ItemTree;
use crate::model::view_item::trees_of;
use crate::model::{Model, ViewItem};
use crate::view::column::Column;
use super::layout::{
    blanks, body_width, cell_text, column_lines, column_text, headline, item_ending,
    lemma_printable_row, lemma_row_count_bounds, line_end, pad_to, padding_text, printable,
    report_text, row_cells, row_count, row_entry, sub_rows, title_text, total_width,
};

verus! {

/// What the literals of this file hold.
proof fn literals_are_as_written()
    ensures
        "Dew It!"@ == title_text(),
        "\n"@ == line_end(),
        " "@ == blanks(1),
        Column::PADDING@ == padding_text(),
{
    reveal_strlit("Dew It!");
    reveal_strlit("\n");
    reveal_strlit(" ");
    Column::padding_is_a_bar();
    assert("Dew It!"@ =~= title_text());
    assert("\n"@ =~= line_end());
    assert(" "@ =~= blanks(1));
}

/// The report as text. Whatever is written is appended to what was written
/// before; nothing is taken back.
pub struct Display {
    written: String,
}

impl View for Display {
    type V = Seq<char>;

    /// All that was written so far.
    closed spec fn view(&self) -> Seq<char> {
        self.written@
    }
}

impl Display {
    /// A display on which nothing was written yet.
    pub fn new() -> (display: Display)
        ensures
            display@ == Seq::<char>::empty(),
    {
        Display { written: String::new() }
    }

    /// All that was written so far.
    pub fn written(&self) -> (text: &String)
        ensures
            text@ == self@,
    {
        &self.written
    }

    /// Writes the report of `model`: the title, the headline with the
    /// labels of the top-level items, and below it, line by line, the
    /// entries of the columns side by side. The columns end together in
    /// the last line; where a column has no entry, its width stays blank.
    pub fn initialize(&mut self, model: &Model)
        requires
            forall|i: int| 0 <= i < model@.len() ==> printable(#[trigger] model@[i]),
        ensures
            final(self)@ == old(self)@ + report_text(model@),
    {
        proof {
            literals_are_as_written();
        }
        self.written.append("Dew It!");
        self.written.append("\n");
        self.write_items_to_display(model);
        self.write_sub_rows(model);
        assert(self@ =~= old(self)@ + report_text(model@));
    }

    /// Writes the headline: the labels of the top-level items as they are,
    /// the padding between them and the line end after the last.
    fn write_items_to_display(&mut self, model: &Model)
        ensures
            final(self)@ == old(self)@ + headline(model@, model@.len()),
    {
        let loop_size: usize = model.items.len();
        let mut index: usize = 0;
        assert(self@ =~= old(self)@ + headline(model@, 0));
        while index < loop_size
            invariant
                index <= loop_size,
                loop_size == model.items@.len(),
                self@ == old(self)@ + headline(model@, index as nat),
            decreases loop_size - index,
        {
            self.written.append(model.items[index].name.as_str());
            self.append_item_ending(loop_size, index);
            index += 1;
            assert(self@ =~= old(self)@ + headline(model@, index as nat));
        }
    }

    /// Writes `column` on its own: one line for each of its entries, each
    /// filled up to the column's width and closed by the padding.
    pub fn write_column(&mut self, column: &Column)
        requires
            printable(column@.root),
        ensures
            final(self)@ == old(self)@ + column_text(column@.root),
    {
        let entries = column.top_item.flatten();
        let width: usize = column.find_total_width();
        let mut row: usize = 0;
        assert(self@ =~= old(self)@ + column_lines(column@.root, 0));
        while row < entries.len()
            invariant
                row <= entries.len(),
                printable(column@.root),
                trees_of(entries@) == column@.root.flatten(),
                width == total_width(column@.root),
                self@ == old(self)@ + column_lines(column@.root, row as nat),
            decreases entries.len() - row,
        {
            proof {
                literals_are_as_written();
            }
            self.write_cell(column, &entries, width, row);
            self.written.append("\n");
            row += 1;
            assert(self@ =~= old(self)@ + column_lines(column@.root, row as nat));
        }
    }

    /// Writes what follows the label at place `index` of `loop_size`.
    fn append_item_ending(&mut self, loop_size: usize, index: usize)
        requires
            index < loop_size,
        ensures
            final(self)@ == old(self)@ + item_ending(loop_size as nat, index as nat),
    {
        proof {
            literals_are_as_written();
        }
        if index < loop_size - 1 {
            self.written.append(Column::PADDING);
        } else {
            self.written.append("\n");
        }
    }

    /// Writes line `row` of `column`, whose traversal and width the caller
    /// has at hand.
    fn write_cell(&mut self, column: &Column, entries: &Vec<&ViewItem>, width: usize, row: usize)
        requires
            printable(column@.root),
            trees_of(entries@) == column@.root.flatten(),
            width == total_width(column@.root),
        ensures
            final(self)@ == old(self)@ + cell_text(column@.root, row as int),
    {
        let ghost root = column@.root;
        let ghost entry = row_entry(root, row as int);
        let body: usize = if width >= 3 {
            width - 3
        } else {
            0
        };
        let mut used: usize = 0;
        if row < entries.len() {
            let item = entries[row];
            proof {
                lemma_printable_row(root, row as int);
                assert(trees_of(entries@)[row as int] == item@);
            }
            let level: usize = column.find_level(item).unwrap();
            let text = Column::format_entry(item, level);
            used = text.as_str().unicode_len();
            self.written.append(text.as_str());
        }
        assert(self@ =~= old(self)@ + entry);
        assert(used == entry.len());
        let ghost filled: nat = 0;
        while used < body
            invariant
                used == entry.len() + filled,
                filled == 0 || used <= body,
                self@ == old(self)@ + entry + blanks(filled),
            decreases body - used,
        {
            proof {
                literals_are_as_written();
                assert(blanks(filled) + blanks(1) =~= blanks(filled + 1));
                filled = filled + 1;
            }
            self.written.append(" ");
            used += 1;
        }
        proof {
            literals_are_as_written();
            assert(body == body_width(root));
            assert(entry + blanks(filled) =~= pad_to(entry, body as nat));
        }
        self.written.append(Column::PADDING);
        assert(self@ =~= old(self)@ + cell_text(root, row as int));
    }

    /// Writes line `row` of a report of `rows` lines: the columns side by
    /// side, each with the line that it shows there, then the line end.
    fn write_row(
        &mut self,
        columns: &Vec<Column>,
        walks: &Vec<Vec<&ViewItem>>,
        widths: &Vec<usize>,
        row: usize,
        rows: usize,
        Ghost(forest): Ghost<Seq<ItemTree>>,
    )
        requires
            prepared(forest, columns@, walks@, widths@, forest.len() as int),
            rows == row_count(forest, forest.len()),
        ensures
            final(self)@ == old(self)@ + row_cells(forest, row as int, rows as nat, forest.len())
                + line_end(),
    {
        let mut place: usize = 0;
        assert(self@ =~= old(self)@ + row_cells(forest, row as int, rows as nat, 0));
        while place < columns.len()
            invariant
                prepared(forest, columns@, walks@, widths@, forest.len() as int),
                rows == row_count(forest, forest.len()),
                place <= columns.len(),
                self@ == old(self)@ + row_cells(forest, row as int, rows as nat, place as nat),
            decreases columns.len() - place,
        {
            let lines: usize = walks[place].len();
            proof {
                lemma_row_count_bounds(forest, forest.len(), place as int);
                assert(trees_of(walks@[place as int]@).len() == lines);
            }
            let shown: usize = if row > rows - lines {
                row - (rows - lines)
            } else {
                lines
            };
            self.write_cell(&columns[place], &walks[place], widths[place], shown);
            place += 1;
            assert(self@ =~= old(self)@ + row_cells(
                forest,
                row as int,
                rows as nat,
                place as nat,
            ));
        }
        proof {
            literals_are_as_written();
        }
        self.written.append("\n");
    }

    /// Writes the lines below the headline: as many as the longest column
    /// has entries below its top.
    fn write_sub_rows(&mut self, model: &Model)
        requires
            forall|i: int| 0 <= i < model@.len() ==> printable(#[trigger] model@[i]),
        ensures
            final(self)@ == old(self)@ + sub_rows(
                model@,
                row_count(model@, model@.len()),
                row_count(model@, model@.len()),
            ),
    {
        let ghost forest = model@;
        let columns = model.columns();
        let mut walks: Vec<Vec<&ViewItem>> = Vec::new();
        let mut widths: Vec<usize> = Vec::new();
        let mut rows: usize = 0;
        let mut place: usize = 0;
        while place < columns.len()
            invariant
                place <= columns.len(),
                prepared(forest, columns@, walks@, widths@, place as int),
                rows == row_count(forest, place as nat),
            decreases columns.len() - place,
        {
            let walk = columns[place].top_item.flatten();
            assert(trees_of(walk@).len() == walk@.len());
            if walk.len() > rows {
                rows = walk.len();
            }
            walks.push(walk);
            widths.push(columns[place].find_total_width());
            place += 1;
        }
        let mut row: usize = 1;
        assert(self@ =~= old(self)@ + sub_rows(forest, rows as nat, 1));
        while row < rows
            invariant
                prepared(forest, columns@, walks@, widths@, forest.len() as int),
                rows == row_count(forest, forest.len()),
                1 <= row,
                row <= rows || row == 1,
                self@ == old(self)@ + sub_rows(forest, rows as nat, row as nat),
            decreases rows - row,
        {
            self.write_row(&columns, &walks, &widths, row, rows, Ghost(forest));
            row += 1;
            assert(self@ =~= old(self)@ + sub_rows(forest, rows as nat, row as nat));
        }
        assert(sub_rows(forest, rows as nat, row as nat) == sub_rows(
            forest,
            rows as nat,
            rows as nat,
        ));
    }
}

/// Whether `columns` are the columns of `forest`, each of them printable,
/// and `walks` and `widths` hold the traversal and the width of each of the
/// first `upto`.
spec fn prepared<'a>(
    forest: Seq<ItemTree>,
    columns: Seq<Column<'a>>,
    walks: Seq<Vec<&'a ViewItem>>,
    widths: Seq<usize>,
    upto: int,
) -> bool {
    &&& columns.len() == forest.len()
    &&& walks.len() == upto
    &&& widths.len() == upto
    &&& forall|i: int|
        0 <= i < forest.len() ==> (#[trigger] columns[i])@.root == forest[i] && printable(forest[i])
    &&& forall|i: int| 0 <= i < upto ==> trees_of((#[trigger] walks[i])@) == forest[i].flatten()
    &&& forall|i: int| 0 <= i < upto ==> (#[trigger] widths[i]) == total_width(forest[i])
}

} // verus!
