//! Summary tables as standalone HTML documents: one body row for each
//! layer, in order, under a fixed head and above a fixed tail.
//!
//! Names and numerals are set into the markup as they are: nothing is
//! escaped, so a name that holds markup becomes part of the document.
use vstd::prelude::*;
use vstd::string::StringExecFns;

use crate::markup::{
    ends_clear, lemma_markup_row_tags, lemma_no_row_tag, lemma_row_tags_concat, row_tag_at,
    row_tags, CELL_BREAK, DOCUMENT_TAIL, MIN_MAX_HEAD, ROW_CLOSE, ROW_OPEN, SUMMARY_HEAD,
};
use crate::text::free_of;

verus! {

/// One layer's line in the table of extremes: its name and the numerals of
/// its largest, smallest and average circle area.
#[derive(Debug, PartialEq, Eq, Clone)]
pub struct MinMaxRow {
    pub name: String,
    pub max_area: String,
    pub min_area: String,
    pub average_area: String,
}

/// What a [`MinMaxRow`] holds, as sequences of characters.
pub ghost struct MinMaxRowView {
    pub name: Seq<char>,
    pub max_area: Seq<char>,
    pub min_area: Seq<char>,
    pub average_area: Seq<char>,
}

impl View for MinMaxRow {
    type V = MinMaxRowView;

    open spec fn view(&self) -> MinMaxRowView {
        MinMaxRowView {
            name: self.name@,
            max_area: self.max_area@,
            min_area: self.min_area@,
            average_area: self.average_area@,
        }
    }
}

impl DeepView for MinMaxRow {
    type V = MinMaxRowView;

    open spec fn deep_view(&self) -> MinMaxRowView {
        self@
    }
}

/// A body row of two cells: a name and the numeral of an average.
pub open spec fn summary_row_text(row: (Seq<char>, Seq<char>)) -> Seq<char> {
    ROW_OPEN@ + row.0 + CELL_BREAK@ + row.1 + ROW_CLOSE@
}

/// The body rows of the document of averages, one after another.
pub open spec fn summary_rows_text(rows: Seq<(Seq<char>, Seq<char>)>) -> Seq<char>
    decreases rows.len(),
{
    if rows.len() == 0 {
        Seq::empty()
    } else {
        summary_rows_text(rows.drop_last()) + summary_row_text(rows.last())
    }
}

/// The document of averages: head, one body row for each entry, tail.
pub open spec fn summary_document(rows: Seq<(Seq<char>, Seq<char>)>) -> Seq<char> {
    SUMMARY_HEAD@ + summary_rows_text(rows) + DOCUMENT_TAIL@
}

/// A body row of four cells: name, largest, smallest and average area.
pub open spec fn min_max_row_text(row: MinMaxRowView) -> Seq<char> {
    ROW_OPEN@ + row.name + CELL_BREAK@ + row.max_area + CELL_BREAK@ + row.min_area + CELL_BREAK@
        + row.average_area + ROW_CLOSE@
}

/// The body rows of the document of extremes, one after another.
pub open spec fn min_max_rows_text(rows: Seq<MinMaxRowView>) -> Seq<char>
    decreases rows.len(),
{
    if rows.len() == 0 {
        Seq::empty()
    } else {
        min_max_rows_text(rows.drop_last()) + min_max_row_text(rows.last())
    }
}

/// The document of extremes: head, one body row for each entry, tail.
pub open spec fn min_max_document(rows: Seq<MinMaxRowView>) -> Seq<char> {
    MIN_MAX_HEAD@ + min_max_rows_text(rows) + DOCUMENT_TAIL@
}

/// Whether neither the name nor the numeral of the entry holds a `<`, so
/// that neither can bring a tag into the document.
pub open spec fn is_markup_free(row: (Seq<char>, Seq<char>)) -> bool {
    free_of(row.0, '<') && free_of(row.1, '<')
}

/// Whether none of the four texts of the row holds a `<`.
pub open spec fn is_markup_free_row(row: MinMaxRowView) -> bool {
    &&& free_of(row.name, '<')
    &&& free_of(row.max_area, '<')
    &&& free_of(row.min_area, '<')
    &&& free_of(row.average_area, '<')
}

/// A cell's content without a `<`, and the markup after it, add no row to
/// what stands before them.
proof fn lemma_cell_adds_no_row(front: Seq<char>, cell: Seq<char>, after: Seq<char>)
    requires
        ends_clear(front),
        free_of(cell, '<'),
        row_tags(after) == 0,
        ends_clear(after),
    ensures
        row_tags(front + cell + after) == row_tags(front),
        ends_clear(front + cell + after),
{
    assert forall|i: int| !row_tag_at(cell, i) by {}
    lemma_no_row_tag(cell);
    lemma_row_tags_concat(front, cell);
    lemma_row_tags_concat(front + cell, after);
}

/// The body rows written for entries without a `<` open one table row
/// each.
proof fn lemma_summary_rows_open_one_each(rows: Seq<(Seq<char>, Seq<char>)>)
    requires
        forall|i: int| 0 <= i < rows.len() ==> is_markup_free(#[trigger] rows[i]),
    ensures
        row_tags(summary_rows_text(rows)) == rows.len(),
        ends_clear(summary_rows_text(rows)),
    decreases rows.len(),
{
    if rows.len() > 0 {
        let row = rows.last();
        lemma_summary_rows_open_one_each(rows.drop_last());
        lemma_markup_row_tags();
        assert(is_markup_free(row));
        lemma_cell_adds_no_row(ROW_OPEN@, row.0, CELL_BREAK@);
        lemma_cell_adds_no_row(ROW_OPEN@ + row.0 + CELL_BREAK@, row.1, ROW_CLOSE@);
        lemma_row_tags_concat(summary_rows_text(rows.drop_last()), summary_row_text(row));
    }
}

/// The body rows written for rows without a `<` open one table row each.
proof fn lemma_min_max_rows_open_one_each(rows: Seq<MinMaxRowView>)
    requires
        forall|i: int| 0 <= i < rows.len() ==> is_markup_free_row(#[trigger] rows[i]),
    ensures
        row_tags(min_max_rows_text(rows)) == rows.len(),
        ends_clear(min_max_rows_text(rows)),
    decreases rows.len(),
{
    if rows.len() > 0 {
        let row = rows.last();
        lemma_min_max_rows_open_one_each(rows.drop_last());
        lemma_markup_row_tags();
        assert(is_markup_free_row(row));
        let one = ROW_OPEN@ + row.name + CELL_BREAK@;
        let two = one + row.max_area + CELL_BREAK@;
        let three = two + row.min_area + CELL_BREAK@;
        lemma_cell_adds_no_row(ROW_OPEN@, row.name, CELL_BREAK@);
        lemma_cell_adds_no_row(one, row.max_area, CELL_BREAK@);
        lemma_cell_adds_no_row(two, row.min_area, CELL_BREAK@);
        lemma_cell_adds_no_row(three, row.average_area, ROW_CLOSE@);
        lemma_row_tags_concat(min_max_rows_text(rows.drop_last()), min_max_row_text(row));
    }
}

/// The document of averages opens one table row for the headings and one
/// for each entry, where no name and no numeral holds a `<`.
pub proof fn lemma_summary_document_rows(rows: Seq<(Seq<char>, Seq<char>)>)
    requires
        forall|i: int| 0 <= i < rows.len() ==> is_markup_free(#[trigger] rows[i]),
    ensures
        row_tags(summary_document(rows)) == rows.len() + 1,
{
    lemma_markup_row_tags();
    lemma_summary_rows_open_one_each(rows);
    lemma_row_tags_concat(SUMMARY_HEAD@, summary_rows_text(rows));
    lemma_row_tags_concat(SUMMARY_HEAD@ + summary_rows_text(rows), DOCUMENT_TAIL@);
}

/// The document of extremes opens one table row for the headings and one
/// for each row handed in, where none of their texts holds a `<`.
pub proof fn lemma_min_max_document_rows(rows: Seq<MinMaxRowView>)
    requires
        forall|i: int| 0 <= i < rows.len() ==> is_markup_free_row(#[trigger] rows[i]),
    ensures
        row_tags(min_max_document(rows)) == rows.len() + 1,
{
    lemma_markup_row_tags();
    lemma_min_max_rows_open_one_each(rows);
    lemma_row_tags_concat(MIN_MAX_HEAD@, min_max_rows_text(rows));
    lemma_row_tags_concat(MIN_MAX_HEAD@ + min_max_rows_text(rows), DOCUMENT_TAIL@);
}

/// Lays out the document of averages for the given names and numerals.
/// Where none of them holds a `<`, the document has one table row for the
/// headings and one for each entry.
pub fn to_html(rows: Vec<(String, String)>) -> (table: String)
    ensures
        table@ == summary_document(rows.deep_view()),
        (forall|i: int| 0 <= i < rows.len() ==> is_markup_free(#[trigger] rows.deep_view()[i]))
            ==> row_tags(table@) == rows.len() + 1,
{
    proof {
        if forall|i: int| 0 <= i < rows.len() ==> is_markup_free(#[trigger] rows.deep_view()[i]) {
            lemma_summary_document_rows(rows.deep_view());
        }
    }
    let mut table = String::new();
    table.append(SUMMARY_HEAD);
    let mut i: usize = 0;
    assert(table@ =~= SUMMARY_HEAD@ + summary_rows_text(rows.deep_view().take(0)));
    while i < rows.len()
        invariant
            i <= rows.len(),
            table@ == SUMMARY_HEAD@ + summary_rows_text(rows.deep_view().take(i as int)),
        decreases rows.len() - i,
    {
        let ghost before = table@;
        let row = &rows[i];
        table.append(ROW_OPEN);
        table.append(row.0.as_str());
        table.append(CELL_BREAK);
        table.append(row.1.as_str());
        table.append(ROW_CLOSE);
        proof {
            let done = rows.deep_view().take(i + 1);
            assert(done.drop_last() == rows.deep_view().take(i as int));
            assert(done.last() == (row.0@, row.1@));
            assert(table@ =~= before + summary_row_text(done.last()));
            assert(table@ =~= SUMMARY_HEAD@ + summary_rows_text(done));
        }
        i += 1;
    }
    assert(rows.deep_view().take(rows.len() as int) == rows.deep_view());
    table.append(DOCUMENT_TAIL);
    table
}

/// Lays out the document of extremes for the given rows. Where none of
/// their texts holds a `<`, the document has one table row for the
/// headings and one for each row handed in.
pub fn min_max_html(rows: Vec<MinMaxRow>) -> (table: String)
    ensures
        table@ == min_max_document(rows.deep_view()),
        (forall|i: int| 0 <= i < rows.len() ==> is_markup_free_row(#[trigger] rows.deep_view()[i]))
            ==> row_tags(table@) == rows.len() + 1,
{
    proof {
        if forall|i: int|
            0 <= i < rows.len() ==> is_markup_free_row(#[trigger] rows.deep_view()[i]) {
            lemma_min_max_document_rows(rows.deep_view());
        }
    }
    let mut table = String::new();
    table.append(MIN_MAX_HEAD);
    let mut i: usize = 0;
    assert(table@ =~= MIN_MAX_HEAD@ + min_max_rows_text(rows.deep_view().take(0)));
    while i < rows.len()
        invariant
            i <= rows.len(),
            table@ == MIN_MAX_HEAD@ + min_max_rows_text(rows.deep_view().take(i as int)),
        decreases rows.len() - i,
    {
        let ghost before = table@;
        let row = &rows[i];
        table.append(ROW_OPEN);
        table.append(row.name.as_str());
        table.append(CELL_BREAK);
        table.append(row.max_area.as_str());
        table.append(CELL_BREAK);
        table.append(row.min_area.as_str());
        table.append(CELL_BREAK);
        table.append(row.average_area.as_str());
        table.append(ROW_CLOSE);
        proof {
            let done = rows.deep_view().take(i + 1);
            assert(done.drop_last() == rows.deep_view().take(i as int));
            assert(done.last() == row@);
            assert(table@ =~= before + min_max_row_text(done.last()));
            assert(table@ =~= MIN_MAX_HEAD@ + min_max_rows_text(done));
        }
        i += 1;
    }
    assert(rows.deep_view().take(rows.len() as int) == rows.deep_view());
    table.append(DOCUMENT_TAIL);
    table
}

} // verus!
