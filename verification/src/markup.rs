//! The fixed markup of the documents, and the count of table rows in a
//! text.
use vstd::prelude::*;

verus! {

/// What opens the document of averages, headed `Generate and Average`, up
/// to the start of the table body.
pub const SUMMARY_HEAD: &'static str = "<!DOCTYPE html>
    <html>
        <head>
            <title>HTML Table</title>
            <style> table, th, td {
                border: 1px solid #000000;
                text-align: center;
                width: 50%;
                border-collapse: collapse; 
                }
            </style>
            <h1>Generate and Average</h1>
        </head>
        <body>
            <table>
                <thead>
                    <tr>
                        <th>Layer</th>
                        <th>Average Area</th>
                    </tr>
                </thead>
                <tbody>";

/// What opens the document of extremes, headed `Max, Min, Average`, up to
/// the start of the table body.
pub const MIN_MAX_HEAD: &'static str = "<!DOCTYPE html>
    <html>
        <head>
            <title>HTML Table</title>
            <style> table, th, td {
                border: 1px solid #000000;
                text-align: center;
                width: 25%;
                border-collapse: collapse;
                margin: 20px;
                }
            </style>
            <h1>Max, Min, Average</h1>
        </head>
        <body>
            <table>
                <thead>
                    <tr>
                        <th>Layer</th>
                        <th>Maximum Area</th>
                        <th>Minimum Area</th>
                        <th>Average Area</th>
                    </tr>
                </thead>
                <tbody>";

/// What closes either document after the last body row.
pub const DOCUMENT_TAIL: &'static str = "</tbody>
                    </table>
                </body>
            </html>";

/// What opens a body row, up to its first cell's content.
pub const ROW_OPEN: &'static str = "<tr>
                                    <td>";

/// What stands between the contents of two neighbouring cells.
pub const CELL_BREAK: &'static str = "</td>
                                    <td>";

/// What closes a body row after its last cell's content.
pub const ROW_CLOSE: &'static str = "</td>
                                </tr>";

/// Whether the tag `<tr>`, which opens a table row, starts at position
/// `i` of `s`.
pub open spec fn row_tag_at(s: Seq<char>, i: int) -> bool {
    &&& 0 <= i
    &&& i + 4 <= s.len()
    &&& s[i] == '<'
    &&& s[i + 1] == 't'
    &&& s[i + 2] == 'r'
    &&& s[i + 3] == '>'
}

/// How many times the tag `<tr>` occurs in `s`: the table rows that `s`
/// opens.
pub open spec fn row_tags(s: Seq<char>) -> nat
    decreases s.len(),
{
    if s.len() == 0 {
        0
    } else {
        row_tags(s.drop_last()) + if row_tag_at(s, s.len() - 4) {
            1nat
        } else {
            0nat
        }
    }
}

/// Whether none of the last three characters of `s` is `<`, so that no tag
/// can start in `s` and end in what is written after it.
pub open spec fn ends_clear(s: Seq<char>) -> bool {
    forall|i: int| 0 <= i < s.len() && s.len() - 3 <= i ==> s[i] != '<'
}

/// A text in which the tag starts nowhere opens no row.
pub proof fn lemma_no_row_tag(s: Seq<char>)
    requires
        forall|i: int| !row_tag_at(s, i),
    ensures
        row_tags(s) == 0,
    decreases s.len(),
{
    if s.len() > 0 {
        assert forall|i: int| !row_tag_at(s.drop_last(), i) by {
            if row_tag_at(s.drop_last(), i) {
                assert(row_tag_at(s, i));
            }
        }
        lemma_no_row_tag(s.drop_last());
    }
}

/// A text in which the tag starts at one position only opens one row.
pub proof fn lemma_one_row_tag(s: Seq<char>, at: int)
    requires
        row_tag_at(s, at),
        forall|i: int| row_tag_at(s, i) ==> i == at,
    ensures
        row_tags(s) == 1,
    decreases s.len(),
{
    let front = s.drop_last();
    if at == s.len() - 4 {
        assert forall|i: int| !row_tag_at(front, i) by {
            if row_tag_at(front, i) {
                assert(row_tag_at(s, i));
            }
        }
        lemma_no_row_tag(front);
    } else {
        assert(row_tag_at(front, at));
        assert forall|i: int| row_tag_at(front, i) implies i == at by {
            assert(row_tag_at(s, i));
        }
        lemma_one_row_tag(front, at);
    }
}

/// Two texts written one after the other open the rows of both, where the
/// first ends clear.
pub proof fn lemma_row_tags_concat(a: Seq<char>, b: Seq<char>)
    requires
        ends_clear(a),
    ensures
        row_tags(a + b) == row_tags(a) + row_tags(b),
        ends_clear(b) ==> ends_clear(a + b),
    decreases b.len(),
{
    let s = a + b;
    if b.len() == 0 {
        assert(s =~= a);
    } else {
        assert(s.drop_last() =~= a + b.drop_last());
        lemma_row_tags_concat(a, b.drop_last());
        assert(row_tag_at(s, s.len() - 4) == row_tag_at(b, b.len() - 4));
    }
}

/// The rows that the fixed markup opens: one in each head, which is the
/// row of headings, one in what opens a body row, and none elsewhere. Each
/// piece ends clear.
pub proof fn lemma_markup_row_tags()
    ensures
        row_tags(SUMMARY_HEAD@) == 1,
        row_tags(MIN_MAX_HEAD@) == 1,
        row_tags(DOCUMENT_TAIL@) == 0,
        row_tags(ROW_OPEN@) == 1,
        row_tags(CELL_BREAK@) == 0,
        row_tags(ROW_CLOSE@) == 0,
        ends_clear(SUMMARY_HEAD@),
        ends_clear(MIN_MAX_HEAD@),
        ends_clear(DOCUMENT_TAIL@),
        ends_clear(ROW_OPEN@),
        ends_clear(CELL_BREAK@),
        ends_clear(ROW_CLOSE@),
{
    lemma_summary_head_row_tags();
    lemma_min_max_head_row_tags();
    lemma_document_tail_row_tags();
    lemma_row_open_row_tags();
    lemma_cell_break_row_tags();
    lemma_row_close_row_tags();
}

/// The head of the document of averages opens the row of headings only.
proof fn lemma_summary_head_row_tags()
    ensures
        row_tags(SUMMARY_HEAD@) == 1,
        ends_clear(SUMMARY_HEAD@),
{
    reveal_strlit("<!DOCTYPE html>
    <html>
        <head>
            <title>HTML Table</title>
            <style> table, th, td {
                border: 1px solid #000000;
                text-align: center;
                width: 50%;
                border-collapse: collapse; 
                }
            </style>
            <h1>Generate and Average</h1>
        </head>
        <body>
            <table>
                <thead>
                    <tr>
                        <th>Layer</th>
                        <th>Average Area</th>
                    </tr>
                </thead>
                <tbody>");
    assert forall|i: int| row_tag_at(SUMMARY_HEAD@, i) implies i == 443 by {}
    lemma_one_row_tag(SUMMARY_HEAD@, 443);
}

/// The head of the document of extremes opens the row of headings only.
proof fn lemma_min_max_head_row_tags()
    ensures
        row_tags(MIN_MAX_HEAD@) == 1,
        ends_clear(MIN_MAX_HEAD@),
{
    reveal_strlit("<!DOCTYPE html>
    <html>
        <head>
            <title>HTML Table</title>
            <style> table, th, td {
                border: 1px solid #000000;
                text-align: center;
                width: 25%;
                border-collapse: collapse;
                margin: 20px;
                }
            </style>
            <h1>Max, Min, Average</h1>
        </head>
        <body>
            <table>
                <thead>
                    <tr>
                        <th>Layer</th>
                        <th>Maximum Area</th>
                        <th>Minimum Area</th>
                        <th>Average Area</th>
                    </tr>
                </thead>
                <tbody>");
    assert forall|i: int| row_tag_at(MIN_MAX_HEAD@, i) implies i == 469 by {}
    lemma_one_row_tag(MIN_MAX_HEAD@, 469);
}

/// The tail opens no row.
proof fn lemma_document_tail_row_tags()
    ensures
        row_tags(DOCUMENT_TAIL@) == 0,
        ends_clear(DOCUMENT_TAIL@),
{
    reveal_strlit("</tbody>
                    </table>
                </body>
            </html>");
    assert forall|i: int| !row_tag_at(DOCUMENT_TAIL@, i) by {}
    lemma_no_row_tag(DOCUMENT_TAIL@);
}

/// What opens a body row opens that row only.
proof fn lemma_row_open_row_tags()
    ensures
        row_tags(ROW_OPEN@) == 1,
        ends_clear(ROW_OPEN@),
{
    reveal_strlit("<tr>
                                    <td>");
    assert forall|i: int| row_tag_at(ROW_OPEN@, i) implies i == 0 by {}
    lemma_one_row_tag(ROW_OPEN@, 0);
}

/// What stands between two cells opens no row.
proof fn lemma_cell_break_row_tags()
    ensures
        row_tags(CELL_BREAK@) == 0,
        ends_clear(CELL_BREAK@),
{
    reveal_strlit("</td>
                                    <td>");
    assert forall|i: int| !row_tag_at(CELL_BREAK@, i) by {}
    lemma_no_row_tag(CELL_BREAK@);
}

/// What closes a body row opens none.
proof fn lemma_row_close_row_tags()
    ensures
        row_tags(ROW_CLOSE@) == 0,
        ends_clear(ROW_CLOSE@),
{
    reveal_strlit("</td>
                                </tr>");
    assert forall|i: int| !row_tag_at(ROW_CLOSE@, i) by {}
    lemma_no_row_tag(ROW_CLOSE@);
}

} // verus!
