//! The record form of a layer: one row of three fields, the name, the
//! colour and the list of circles.
//!
//! In the list each circle is written as its three numerals with commas
//! between them, and neighbouring circles are set apart by a semicolon and
//! a space. Reading trims every stretch between two semicolons and every
//! numeral in it, and is lenient about the list: a stretch that does not
//! hold exactly three comma-separated parts is passed over.
use vstd::prelude::*;
use vstd::string::StringExecFns;

use crate::layer::{Circle, CircleView, Layer, LayerView};
use crate::text::{
    chars_of, free_of, is_blank, is_tight, join, lemma_split_join, lemma_trim_tight, split,
    split_on, string_of, trim, trimmed,
};

verus! {

/// One circle as it stands in the list: `x,y,radius`.
pub open spec fn circle_text(c: CircleView) -> Seq<char> {
    c.x + seq![','] + c.y + seq![','] + c.radius
}

/// The texts of the circles, one for each, in order.
pub open spec fn circle_texts(circles: Seq<CircleView>) -> Seq<Seq<char>> {
    Seq::new(circles.len(), |i: int| circle_text(circles[i]))
}

/// The list field of a layer: the texts of its circles, joined by `"; "`.
pub open spec fn circle_list_text(circles: Seq<CircleView>) -> Seq<char> {
    join(circle_texts(circles), seq![';', ' '])
}

/// The circle that one stretch of the list spells, if it spells one: the
/// stretch is trimmed and cut at its commas, and counts only when that
/// gives exactly three parts, each of which is trimmed in its turn.
pub open spec fn circle_of_piece(piece: Seq<char>) -> Option<CircleView> {
    let parts = split_on(trimmed(piece), ',');
    if parts.len() == 3 {
        Some(CircleView { x: trimmed(parts[0]), y: trimmed(parts[1]), radius: trimmed(parts[2]) })
    } else {
        None
    }
}

/// The circles that the stretches spell, in order, with the stretches
/// that spell none left out.
pub open spec fn circles_of_pieces(pieces: Seq<Seq<char>>) -> Seq<CircleView>
    decreases pieces.len(),
{
    if pieces.len() == 0 {
        Seq::empty()
    } else {
        let before = circles_of_pieces(pieces.drop_last());
        match circle_of_piece(pieces.last()) {
            Some(c) => before.push(c),
            None => before,
        }
    }
}

/// The circles that a list field spells.
pub open spec fn parsed_circle_list(field: Seq<char>) -> Seq<CircleView> {
    circles_of_pieces(split_on(field, ';'))
}

/// Writes the list field for `circles`.
pub fn circle_list(circles: &Vec<Circle>) -> (field: String)
    ensures
        field@ == circle_list_text(circles.deep_view()),
{
    let ghost texts = circle_texts(circles.deep_view());
    let mut field = String::new();
    let mut i: usize = 0;
    while i < circles.len()
        invariant
            i <= circles.len(),
            texts == circle_texts(circles.deep_view()),
            field@ == join(texts.take(i as int), seq![';', ' ']),
        decreases circles.len() - i,
    {
        let ghost before = field@;
        if i > 0 {
            field.push(';');
            field.push(' ');
        }
        let c = &circles[i];
        field.append(c.x.as_str());
        field.push(',');
        field.append(c.y.as_str());
        field.push(',');
        field.append(c.radius.as_str());
        proof {
            let done = texts.take(i + 1);
            assert(done.drop_last() == texts.take(i as int));
            assert(done.last() == circle_text(circles.deep_view()[i as int]));
            assert(circles.deep_view()[i as int] == c@);
            if i > 0 {
                assert(field@ =~= before + seq![';', ' '] + circle_text(c@));
            } else {
                assert(field@ =~= circle_text(c@));
            }
        }
        i += 1;
    }
    assert(texts.take(circles.len() as int) == texts);
    field
}

/// Reads the circles out of a list field.
pub fn parse_circle_list(field: &str) -> (circles: Vec<Circle>)
    ensures
        circles.deep_view() == parsed_circle_list(field@),
{
    let chars = chars_of(field);
    let pieces = split(&chars, ';');
    let mut circles: Vec<Circle> = Vec::new();
    let mut i: usize = 0;
    while i < pieces.len()
        invariant
            i <= pieces.len(),
            pieces.deep_view() == split_on(field@, ';'),
            circles.deep_view() == circles_of_pieces(pieces.deep_view().take(i as int)),
        decreases pieces.len() - i,
    {
        let ghost before = circles.deep_view();
        let piece = trim(&pieces[i]);
        let parts = split(&piece, ',');
        proof {
            let done = pieces.deep_view().take(i + 1);
            assert(done.drop_last() == pieces.deep_view().take(i as int));
            assert(done.last() =~= pieces[i as int]@);
        }
        if parts.len() == 3 {
            let c = Circle {
                x: string_of(&trim(&parts[0])),
                y: string_of(&trim(&parts[1])),
                radius: string_of(&trim(&parts[2])),
            };
            circles.push(c);
            proof {
                assert(parts.deep_view()[0] =~= parts[0]@);
                assert(parts.deep_view()[1] =~= parts[1]@);
                assert(parts.deep_view()[2] =~= parts[2]@);
                assert(circles.deep_view() =~= before.push(c@));
            }
        }
        i += 1;
    }
    assert(pieces.deep_view().take(pieces.len() as int) == pieces.deep_view());
    circles
}


/// Whether `s` can stand as a numeral in the list and be read back as it
/// is: it has no blank at either end and holds neither a comma nor a
/// semicolon.
pub open spec fn is_plain(s: Seq<char>) -> bool {
    &&& is_tight(s)
    &&& free_of(s, ',')
    &&& free_of(s, ';')
}

/// Whether all three numerals of `c` are plain.
pub open spec fn is_plain_circle(c: CircleView) -> bool {
    is_plain(c.x) && is_plain(c.y) && is_plain(c.radius)
}

/// The pieces, each but the first with a space put before it.
spec fn spaced(pieces: Seq<Seq<char>>) -> Seq<Seq<char>> {
    Seq::new(
        pieces.len(),
        |i: int|
            if i == 0 {
                pieces[i]
            } else {
                seq![' '] + pieces[i]
            },
    )
}

/// Joining by `"; "` is joining the spaced pieces by `";"`.
proof fn lemma_join_spaced(pieces: Seq<Seq<char>>)
    ensures
        join(pieces, seq![';', ' ']) == join(spaced(pieces), seq![';']),
    decreases pieces.len(),
{
    if pieces.len() > 1 {
        lemma_join_spaced(pieces.drop_last());
        assert(spaced(pieces).drop_last() =~~= spaced(pieces.drop_last()));
        assert(join(pieces, seq![';', ' ']) =~= join(spaced(pieces), seq![';']));
    }
}

/// The text of a plain circle, with or without a space before it, spells
/// that circle.
proof fn lemma_circle_text_read_back(c: CircleView)
    requires
        is_plain_circle(c),
    ensures
        free_of(circle_text(c), ';'),
        circle_of_piece(circle_text(c)) == Some(c),
        circle_of_piece(seq![' '] + circle_text(c)) == Some(c),
{
    let text = circle_text(c);
    let parts = seq![c.x, c.y, c.radius];
    assert(!is_blank(','));
    assert(text[0] == if c.x.len() > 0 { c.x[0] } else { ',' });
    assert(text.last() == if c.radius.len() > 0 { c.radius.last() } else { ',' });
    lemma_trim_tight(text);
    lemma_trim_tight(c.x);
    lemma_trim_tight(c.y);
    lemma_trim_tight(c.radius);
    assert(parts.drop_last() =~~= seq![c.x, c.y]);
    assert(parts.drop_last().drop_last() =~~= seq![c.x]);
    assert(join(seq![c.x], seq![',']) == c.x);
    assert(join(seq![c.x, c.y], seq![',']) == c.x + seq![','] + c.y);
    assert(join(parts, seq![',']) == text);
    lemma_split_join(parts, ',');
}

/// Stretches that spell one circle each spell those circles, in order.
proof fn lemma_circles_of_pieces_all(pieces: Seq<Seq<char>>, circles: Seq<CircleView>)
    requires
        pieces.len() == circles.len(),
        forall|i: int|
            0 <= i < pieces.len() ==> circle_of_piece(#[trigger] pieces[i]) == Some(circles[i]),
    ensures
        circles_of_pieces(pieces) == circles,
    decreases pieces.len(),
{
    if pieces.len() > 0 {
        lemma_circles_of_pieces_all(pieces.drop_last(), circles.drop_last());
        assert(circles_of_pieces(pieces) =~= circles);
    } else {
        assert(circles_of_pieces(pieces) =~= circles);
    }
}

/// Reading a list field that was written from plain circles gives those
/// circles back, none lost, none added and none changed.
pub proof fn lemma_circle_list_round_trip(circles: Seq<CircleView>)
    requires
        forall|i: int| 0 <= i < circles.len() ==> is_plain_circle(#[trigger] circles[i]),
    ensures
        parsed_circle_list(circle_list_text(circles)) == circles,
{
    let texts = circle_texts(circles);
    let field = circle_list_text(circles);
    if circles.len() == 0 {
        assert(field.len() == 0);
        assert(split_on(field, ';') =~~= seq![Seq::<char>::empty()]);
        let only = Seq::<char>::empty();
        assert(trimmed(only) == only);
        assert(split_on(only, ',').len() == 1);
        assert(circle_of_piece(only) is None);
        assert(seq![only].drop_last() =~~= Seq::<Seq<char>>::empty());
        assert(seq![only].last() == only);
        assert(circles_of_pieces(Seq::<Seq<char>>::empty()) =~= circles);
        assert(circles_of_pieces(seq![only]) =~= circles);
    } else {
        let pieces = spaced(texts);
        lemma_join_spaced(texts);
        assert forall|i: int| 0 <= i < pieces.len() implies free_of(#[trigger] pieces[i], ';')
            && circle_of_piece(pieces[i]) == Some(circles[i]) by {
            lemma_circle_text_read_back(circles[i]);
        }
        lemma_split_join(pieces, ';');
        lemma_circles_of_pieces_all(pieces, circles);
    }
}


/// Tells whether `s` is plain.
pub fn is_plain_text(s: &str) -> (b: bool)
    ensures
        b == is_plain(s@),
{
    let chars = chars_of(s);
    let n = chars.len();
    if n > 0 && (chars[0].is_whitespace() || chars[n - 1].is_whitespace()) {
        return false;
    }
    let mut i: usize = 0;
    while i < n
        invariant
            i <= n,
            n == chars.len(),
            chars@ == s@,
            forall|k: int| 0 <= k < i ==> chars[k] != ',' && chars[k] != ';',
        decreases n - i,
    {
        if chars[i] == ',' || chars[i] == ';' {
            return false;
        }
        i += 1;
    }
    true
}

/// Tells whether all three numerals of `c` are plain.
pub fn is_plain_circle_text(c: &Circle) -> (b: bool)
    ensures
        b == is_plain_circle(c@),
{
    is_plain_text(c.x.as_str()) && is_plain_text(c.y.as_str()) && is_plain_text(
        c.radius.as_str(),
    )
}

/// Writes the list field for `circles` where every one of them is plain,
/// and only there. The field that comes back is read back as the very
/// circles it was written from.
pub fn checked_circle_list(circles: &Vec<Circle>) -> (field: Option<String>)
    ensures
        field is Some <==> forall|i: int|
            0 <= i < circles.len() ==> is_plain_circle(#[trigger] circles[i]@),
        field matches Some(f) ==> {
            &&& f@ == circle_list_text(circles.deep_view())
            &&& parsed_circle_list(f@) == circles.deep_view()
        },
{
    let mut i: usize = 0;
    while i < circles.len()
        invariant
            i <= circles.len(),
            forall|k: int| 0 <= k < i ==> is_plain_circle(#[trigger] circles[k]@),
        decreases circles.len() - i,
    {
        if !is_plain_circle_text(&circles[i]) {
            return None;
        }
        i += 1;
    }
    proof {
        assert forall|k: int| 0 <= k < circles.deep_view().len() implies is_plain_circle(
            #[trigger] circles.deep_view()[k],
        ) by {
            assert(circles.deep_view()[k] == circles[k]@);
        }
        lemma_circle_list_round_trip(circles.deep_view());
    }
    Some(circle_list(circles))
}

/// Names the bytes that a fresh `csv::Writer` puts out for one record of
/// the given fields: the fields with commas between them, quoted where a
/// field calls for it, and a line feed after them.
pub uninterp spec fn csv_record(fields: Seq<Seq<char>>) -> Seq<u8>;

/// Names the rows that a `csv::Reader` finds in `data` when it is set to
/// the comma as delimiter, to no header row and to trimming every field.
/// A row that the reader reports as an error stands as `None`, every other
/// row as its fields.
pub uninterp spec fn csv_rows(data: Seq<u8>) -> Seq<Option<Seq<Seq<char>>>>;

/// Makes a `csv::Writer` over an empty vector with `Writer::from_writer`,
/// writes `fields` as its one record with `Writer::write_record`, and takes
/// the vector back with `Writer::into_inner`. What comes back depends on
/// the fields alone. Neither call can fail here: a vector takes every
/// write, and the first record of a writer may have any number of fields.
#[verifier::external_body]
fn csv_write_record(fields: &Vec<String>) -> (bytes: Vec<u8>)
    ensures
        bytes@ == csv_record(fields.deep_view()),
{
    let mut writer = csv::Writer::from_writer(Vec::new());
    writer.write_record(fields).unwrap();
    writer.into_inner().unwrap()
}

/// Builds a `csv::Reader` over `data` with `ReaderBuilder` (delimiter `,`,
/// no headers, `Trim::All`) and walks `Reader::records` to its end. What
/// comes back depends on the bytes alone; the reader's errors are turned
/// into `None`, and it goes on with the next row after each.
#[verifier::external_body]
fn csv_read_rows(data: &[u8]) -> (rows: Vec<Option<Vec<String>>>)
    ensures
        rows.deep_view() == csv_rows(data@),
{
    let mut reader = csv::ReaderBuilder::new()
        .delimiter(b',')
        .has_headers(false)
        .trim(csv::Trim::All)
        .from_reader(data);
    reader.records().map(|row| row.ok().map(|r| r.iter().map(String::from).collect())).collect()
}

/// The three fields of the row that stands for a layer.
pub open spec fn row_of(layer: LayerView) -> Seq<Seq<char>> {
    seq![layer.name, layer.color, circle_list_text(layer.circles)]
}

/// The bytes of the layers' records, one after another.
pub open spec fn encoded_layers(layers: Seq<LayerView>) -> Seq<u8>
    decreases layers.len(),
{
    if layers.len() == 0 {
        Seq::empty()
    } else {
        encoded_layers(layers.drop_last()) + csv_record(row_of(layers.last()))
    }
}

/// The two fields of the row that stands for a layer's average.
pub open spec fn average_row_of(entry: (Seq<char>, Seq<char>)) -> Seq<Seq<char>> {
    seq![entry.0, entry.1]
}

/// The bytes of the averages' records, one after another.
pub open spec fn encoded_averages(entries: Seq<(Seq<char>, Seq<char>)>) -> Seq<u8>
    decreases entries.len(),
{
    if entries.len() == 0 {
        Seq::empty()
    } else {
        encoded_averages(entries.drop_last()) + csv_record(average_row_of(entries.last()))
    }
}

/// Writes the row that stands for `layer`.
pub fn layer_row(layer: &Layer) -> (row: Vec<String>)
    ensures
        row.deep_view() == row_of(layer@),
{
    let mut row: Vec<String> = Vec::new();
    row.push(layer.name.clone());
    row.push(layer.color.clone());
    row.push(circle_list(&layer.circles));
    assert(row.deep_view() =~~= row_of(layer@));
    row
}

/// Writes the layers as records, one row for each, in order.
pub fn write_layer_csv(layers: Vec<Layer>) -> (bytes: Vec<u8>)
    ensures
        bytes@ == encoded_layers(layers.deep_view()),
{
    let mut bytes: Vec<u8> = Vec::new();
    let mut i: usize = 0;
    while i < layers.len()
        invariant
            i <= layers.len(),
            bytes@ == encoded_layers(layers.deep_view().take(i as int)),
        decreases layers.len() - i,
    {
        let row = layer_row(&layers[i]);
        let mut record = csv_write_record(&row);
        proof {
            let done = layers.deep_view().take(i + 1);
            assert(done.drop_last() == layers.deep_view().take(i as int));
            assert(done.last() == layers[i as int]@);
        }
        bytes.append(&mut record);
        i += 1;
    }
    assert(layers.deep_view().take(layers.len() as int) == layers.deep_view());
    bytes
}

/// Writes each name with the numeral of its average as a record of two
/// fields, one row for each entry, in order.
pub fn write_layer_avg(avg_areas: Vec<(String, String)>) -> (bytes: Vec<u8>)
    ensures
        bytes@ == encoded_averages(avg_areas.deep_view()),
{
    let mut bytes: Vec<u8> = Vec::new();
    let mut i: usize = 0;
    while i < avg_areas.len()
        invariant
            i <= avg_areas.len(),
            bytes@ == encoded_averages(avg_areas.deep_view().take(i as int)),
        decreases avg_areas.len() - i,
    {
        let mut row: Vec<String> = Vec::new();
        row.push(avg_areas[i].0.clone());
        row.push(avg_areas[i].1.clone());
        let mut record = csv_write_record(&row);
        proof {
            let done = avg_areas.deep_view().take(i + 1);
            assert(done.drop_last() == avg_areas.deep_view().take(i as int));
            assert(row.deep_view() =~~= average_row_of(done.last()));
        }
        bytes.append(&mut record);
        i += 1;
    }
    assert(avg_areas.deep_view().take(avg_areas.len() as int) == avg_areas.deep_view());
    bytes
}


/// Why a set of rows cannot be read as layers.
#[derive(Debug, PartialEq, Eq, Clone, Copy)]
pub enum DecodeError {
    /// The row at this position, counted from zero over all rows that the
    /// reader found, has fewer than three fields.
    MissingField { row: usize },
}

/// The layer that a row of at least three fields stands for. Fields past
/// the third are not looked at.
pub open spec fn layer_of_row(fields: Seq<Seq<char>>) -> LayerView
    recommends
        fields.len() >= 3,
{
    LayerView { name: fields[0], color: fields[1], circles: parsed_circle_list(fields[2]) }
}

/// The layers that the rows stand for, in order. A row that the reader
/// could not make out is passed over. The first row with fewer than three
/// fields fails the whole reading.
pub open spec fn decoded_rows(rows: Seq<Option<Seq<Seq<char>>>>) -> Result<
    Seq<LayerView>,
    DecodeError,
>
    decreases rows.len(),
{
    if rows.len() == 0 {
        Ok(Seq::empty())
    } else {
        match decoded_rows(rows.drop_last()) {
            Err(e) => Err(e),
            Ok(layers) => match rows.last() {
                None => Ok(layers),
                Some(fields) => if fields.len() < 3 {
                    Err(DecodeError::MissingField { row: (rows.len() - 1) as usize })
                } else {
                    Ok(layers.push(layer_of_row(fields)))
                },
            },
        }
    }
}

/// A reading's outcome with the layers taken by their view.
pub open spec fn outcome_view(outcome: Result<Vec<Layer>, DecodeError>) -> Result<
    Seq<LayerView>,
    DecodeError,
> {
    match outcome {
        Ok(layers) => Ok(layers.deep_view()),
        Err(e) => Err(e),
    }
}

/// Reads the layers that the rows stand for.
pub fn layers_from_rows(rows: Vec<Option<Vec<String>>>) -> (outcome: Result<
    Vec<Layer>,
    DecodeError,
>)
    ensures
        outcome_view(outcome) == decoded_rows(rows.deep_view()),
{
    let mut layers: Vec<Layer> = Vec::new();
    let mut i: usize = 0;
    assert(layers.deep_view() =~= Seq::<LayerView>::empty());
    while i < rows.len()
        invariant
            i <= rows.len(),
            decoded_rows(rows.deep_view().take(i as int)) == Ok::<Seq<LayerView>, DecodeError>(
                layers.deep_view(),
            ),
        decreases rows.len() - i,
    {
        let ghost before = layers.deep_view();
        let ghost done = rows.deep_view().take(i + 1);
        proof {
            assert(done.drop_last() == rows.deep_view().take(i as int));
            assert(done.last() == rows[i as int].deep_view());
        }
        match &rows[i] {
            None => {},
            Some(fields) => {
                assert(rows[i as int].deep_view() == Some(fields.deep_view()));
                if fields.len() < 3 {
                    proof {
                        lemma_decoded_rows_error_stays(rows.deep_view(), i + 1);
                    }
                    return Err(DecodeError::MissingField { row: i });
                }
                let layer = Layer {
                    name: fields[0].clone(),
                    color: fields[1].clone(),
                    circles: parse_circle_list(fields[2].as_str()),
                };
                layers.push(layer);
                assert(layers.deep_view() =~= before.push(layer@));
            },
        }
        i += 1;
    }
    assert(rows.deep_view().take(rows.len() as int) == rows.deep_view());
    Ok(layers)
}

/// Once a reading has failed on some rows, more rows after them do not
/// change the failure.
proof fn lemma_decoded_rows_error_stays(rows: Seq<Option<Seq<Seq<char>>>>, upto: int)
    requires
        0 <= upto <= rows.len(),
        decoded_rows(rows.take(upto)) is Err,
    ensures
        decoded_rows(rows) == decoded_rows(rows.take(upto)),
    decreases rows.len() - upto,
{
    if upto == rows.len() {
        assert(rows.take(upto) == rows);
    } else {
        assert(rows.take(upto + 1).drop_last() == rows.take(upto));
        lemma_decoded_rows_error_stays(rows, upto + 1);
    }
}

/// Reads the layers out of the bytes of a record file.
pub fn read_csv(data: &[u8]) -> (outcome: Result<Vec<Layer>, DecodeError>)
    ensures
        outcome_view(outcome) == decoded_rows(csv_rows(data@)),
{
    let rows = csv_read_rows(data);
    layers_from_rows(rows)
}


/// Whether the row was made out by the reader and yet has fewer than
/// three fields.
pub open spec fn is_short(row: Option<Seq<Seq<char>>>) -> bool {
    row is Some && row->0.len() < 3
}

/// A reading succeeds exactly when no row is short, and a failed reading
/// names the first short row. The rows are as many as a vector can hold.
pub proof fn lemma_decoded_rows_outcome(rows: Seq<Option<Seq<Seq<char>>>>)
    requires
        rows.len() <= usize::MAX,
    ensures
        decoded_rows(rows) is Ok <==> forall|i: int|
            0 <= i < rows.len() ==> !is_short(#[trigger] rows[i]),
        decoded_rows(rows) matches Err(DecodeError::MissingField { row }) ==> {
            &&& row < rows.len()
            &&& is_short(rows[row as int])
            &&& forall|i: int| 0 <= i < row ==> !is_short(#[trigger] rows[i])
        },
    decreases rows.len(),
{
    if rows.len() > 0 {
        let before = rows.drop_last();
        lemma_decoded_rows_outcome(before);
        assert forall|i: int| 0 <= i < before.len() implies before[i] == rows[i] by {}
        if decoded_rows(before) is Ok {
            if is_short(rows.last()) {
                assert(is_short(rows[rows.len() - 1]));
            } else {
                assert forall|i: int| 0 <= i < rows.len() implies !is_short(#[trigger] rows[i]) by {
                    if i < before.len() {
                        assert(before[i] == rows[i]);
                    }
                }
            }
        } else {
            let i = choose|i: int| 0 <= i < before.len() && is_short(#[trigger] before[i]);
            assert(is_short(rows[i]));
        }
    }
}

/// The rows that stand for the layers, as a reader that made out every
/// one of them would hand them over.
pub open spec fn rows_of(layers: Seq<LayerView>) -> Seq<Option<Seq<Seq<char>>>> {
    Seq::new(layers.len(), |i: int| Some(row_of(layers[i])))
}

/// Whether every circle of the layer is plain.
pub open spec fn is_plain_layer(layer: LayerView) -> bool {
    forall|k: int| 0 <= k < layer.circles.len() ==> is_plain_circle(#[trigger] layer.circles[k])
}

/// Reading the rows that were written for layers of plain circles gives
/// those layers back: as many, in the same order, with the same names,
/// colours and circles.
pub proof fn lemma_rows_round_trip(layers: Seq<LayerView>)
    requires
        forall|i: int| 0 <= i < layers.len() ==> is_plain_layer(#[trigger] layers[i]),
    ensures
        decoded_rows(rows_of(layers)) == Ok::<Seq<LayerView>, DecodeError>(layers),
    decreases layers.len(),
{
    if layers.len() == 0 {
        assert(decoded_rows(rows_of(layers)) == Ok::<Seq<LayerView>, DecodeError>(Seq::empty()));
        assert(layers =~= Seq::empty());
    } else {
        let before = layers.drop_last();
        let last = layers.last();
        lemma_rows_round_trip(before);
        assert(rows_of(layers).drop_last() =~= rows_of(before));
        assert(is_plain_layer(last));
        lemma_circle_list_round_trip(last.circles);
        assert(layer_of_row(row_of(last)) == last);
        assert(before.push(last) =~= layers);
    }
}

} // verus!
