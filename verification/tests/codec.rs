use circle::codec::{
    checked_circle_list, circle_list, is_plain_circle_text, is_plain_text, layer_row,
    layers_from_rows, parse_circle_list, read_csv, write_layer_avg, write_layer_csv, DecodeError,
};
use circle::layer::{Circle, Layer};

fn circle(x: &str, y: &str, radius: &str) -> Circle {
    Circle { x: String::from(x), y: String::from(y), radius: String::from(radius) }
}

fn layer(name: &str, color: &str, circles: Vec<Circle>) -> Layer {
    Layer { name: String::from(name), color: String::from(color), circles }
}

fn fields(row: &[&str]) -> Option<Vec<String>> {
    Some(row.iter().map(|f| String::from(*f)).collect())
}

fn two_layers() -> Vec<Layer> {
    vec![
        layer(
            "Layer 1",
            "#0000ffff",
            vec![circle("1.0", "2.0", "1.0"), circle("5.0", "10.0", "2.0")],
        ),
        layer(
            "Layer 2",
            "#ff00aa01",
            vec![circle("4.0", "3.0", "3.0"), circle("-5.5", "10.0", "-4.0")],
        ),
    ]
}

#[test]
fn circle_list_joins_with_semicolon_and_space() {
    let list = circle_list(&vec![circle("1.0", "2.0", "1.0"), circle("5.0", "10.0", "2.0")]);
    assert_eq!(list, "1.0,2.0,1.0; 5.0,10.0,2.0");
}

#[test]
fn circle_list_of_one_and_of_none() {
    assert_eq!(circle_list(&vec![circle("-0.0", "100.0", "-10.0")]), "-0.0,100.0,-10.0");
    assert_eq!(circle_list(&Vec::new()), "");
}

#[test]
fn parse_reads_what_was_written() {
    let circles = vec![
        circle("1.0", "2.0", "1.0"),
        circle("5.0", "10.0", "2.0"),
        circle("-99.9", "0.1", "20.0"),
    ];
    assert_eq!(parse_circle_list(&circle_list(&circles)), circles);
}

#[test]
fn parse_drops_stretches_without_three_parts() {
    let got = parse_circle_list("1.0,2.0; 3.0,4.0,5.0 ;  6,7,8,9;;10,11,12");
    assert_eq!(got, vec![circle("3.0", "4.0", "5.0"), circle("10", "11", "12")]);
    assert_eq!(parse_circle_list(""), Vec::<Circle>::new());
    assert_eq!(parse_circle_list(" ; ; "), Vec::<Circle>::new());
}

#[test]
fn parse_trims_the_stretch_and_each_of_its_parts() {
    let got = parse_circle_list("  1 , 2 ,3  ;x,,");
    assert_eq!(got, vec![circle("1", "2", "3"), circle("x", "", "")]);
    let tabs = parse_circle_list("\t1.5\t,\u{a0}-2\u{3000},  3e2 ; 4 ,5 , 6");
    assert_eq!(tabs, vec![circle("1.5", "-2", "3e2"), circle("4", "5", "6")]);
}

#[test]
fn parse_keeps_blanks_inside_a_numeral() {
    assert_eq!(parse_circle_list(" 1 0 , 2\t0 ,3"), vec![circle("1 0", "2\t0", "3")]);
}

#[test]
fn plain_texts() {
    assert!(is_plain_text("1.0"));
    assert!(is_plain_text("-100.0"));
    assert!(is_plain_text("NaN"));
    assert!(is_plain_text("1 0"));
    assert!(is_plain_text(""));
    assert!(!is_plain_text(" 1.0"));
    assert!(!is_plain_text("1.0\n"));
    assert!(!is_plain_text("\u{2003}1.0"));
    assert!(!is_plain_text("1,0"));
    assert!(!is_plain_text("1;0"));
    assert!(!is_plain_text(" "));
    assert!(is_plain_circle_text(&circle("1.0", "2.0", "3.0")));
    assert!(!is_plain_circle_text(&circle("1.0", "2.0 ", "3.0")));
    assert!(!is_plain_circle_text(&circle("1.0", "2.0", "3,0")));
    assert!(!is_plain_circle_text(&circle(";", "2.0", "3.0")));
}

#[test]
fn checked_list_is_written_for_plain_circles_only() {
    let plain = vec![circle("1.0", "2.0", "1.0"), circle("", "-5.5", "inf")];
    let field = checked_circle_list(&plain).unwrap();
    assert_eq!(field, "1.0,2.0,1.0; ,-5.5,inf");
    assert_eq!(parse_circle_list(&field), plain);
    assert_eq!(checked_circle_list(&Vec::new()), Some(String::new()));
    assert_eq!(checked_circle_list(&vec![circle("1.0", " 2.0", "1.0")]), None);
    let second_cut = vec![circle("1.0", "2.0", "1.0"), circle("1;", "2", "3")];
    assert_eq!(checked_circle_list(&second_cut), None);
    assert_eq!(checked_circle_list(&vec![circle("1,5", "2", "3")]), None);
}

#[test]
fn unchecked_list_of_circles_that_are_not_plain_reads_back_otherwise() {
    let padded = vec![circle(" 1.0", "2.0", "3.0 ")];
    assert_eq!(parse_circle_list(&circle_list(&padded)), vec![circle("1.0", "2.0", "3.0")]);
    let cut = vec![circle("1,5", "2", "3")];
    assert_eq!(parse_circle_list(&circle_list(&cut)), Vec::<Circle>::new());
}

#[test]
fn layer_row_has_three_fields() {
    let row = layer_row(&two_layers()[0]);
    assert_eq!(row, vec!["Layer 1", "#0000ffff", "1.0,2.0,1.0; 5.0,10.0,2.0"]);
}

#[test]
fn write_quotes_the_circle_list() {
    let bytes = write_layer_csv(two_layers());
    let expected = "Layer 1,#0000ffff,\"1.0,2.0,1.0; 5.0,10.0,2.0\"\n\
                    Layer 2,#ff00aa01,\"4.0,3.0,3.0; -5.5,10.0,-4.0\"\n";
    assert_eq!(String::from_utf8(bytes).unwrap(), expected);
}

#[test]
fn write_has_one_row_for_each_layer() {
    let layers: Vec<Layer> = (1..=5)
        .map(|i| layer(&format!("Layer {}", i), "#00000000", vec![circle("0.0", "0.0", "1.0")]))
        .collect();
    let bytes = write_layer_csv(layers);
    assert_eq!(bytes.iter().filter(|b| **b == b'\n').count(), 5);
}

#[test]
fn write_nothing_for_no_layers() {
    assert_eq!(write_layer_csv(Vec::new()), Vec::<u8>::new());
}

#[test]
fn write_a_layer_without_circles() {
    let bytes = write_layer_csv(vec![layer("Layer 1", "#00000000", Vec::new())]);
    assert_eq!(String::from_utf8(bytes).unwrap(), "Layer 1,#00000000,\n");
}

#[test]
fn write_quotes_a_name_that_needs_it() {
    let bytes = write_layer_csv(vec![layer("a,\"b\"", "#1", Vec::new())]);
    assert_eq!(String::from_utf8(bytes).unwrap(), "\"a,\"\"b\"\"\",#1,\n");
}

#[test]
fn read_gives_back_what_was_written() {
    let layers = two_layers();
    let bytes = write_layer_csv(layers.clone());
    assert_eq!(read_csv(&bytes), Ok(layers));
}

#[test]
fn read_gives_back_one_decimal_numerals() {
    let values = [(1.25f64, -7.0f64, 3.14159f64), (-100.0, 100.0, -10.0), (0.04, 99.95, 20.0)];
    let circles: Vec<Circle> = values
        .iter()
        .map(|(x, y, r)| circle(&format!("{:.1}", x), &format!("{:.1}", y), &format!("{:.1}", r)))
        .collect();
    let layers = vec![layer("Layer 1", "#89abcdef", circles)];
    let back = read_csv(&write_layer_csv(layers.clone())).unwrap();
    assert_eq!(back, layers);
    for (c, (x, y, r)) in back[0].circles.iter().zip(values.iter()) {
        assert!((c.x.parse::<f64>().unwrap() - x).abs() <= 0.05 + 1e-9);
        assert!((c.y.parse::<f64>().unwrap() - y).abs() <= 0.05 + 1e-9);
        assert!((c.radius.parse::<f64>().unwrap() - r).abs() <= 0.05 + 1e-9);
    }
    assert_eq!(back[0].circles[0], circle("1.2", "-7.0", "3.1"));
}

#[test]
fn read_gives_back_a_name_with_delimiters() {
    let layers = vec![layer("a,\"b\"\nc", "#1", vec![circle("1", "2", "3")])];
    assert_eq!(read_csv(&write_layer_csv(layers.clone())), Ok(layers));
}

#[test]
fn read_of_nothing_is_no_layers() {
    assert_eq!(read_csv(b""), Ok(Vec::new()));
}

#[test]
fn read_trims_fields() {
    let got = read_csv(b"  Layer 1 ,\t#00ff00ff ,\"  1.0,2.0,3.0 ;4.0,5.0,6.0  \"\n").unwrap();
    assert_eq!(
        got,
        vec![layer(
            "Layer 1",
            "#00ff00ff",
            vec![circle("1.0", "2.0", "3.0"), circle("4.0", "5.0", "6.0")],
        )]
    );
}

#[test]
fn read_trims_the_numerals_of_a_circle() {
    let got = read_csv(b"L,#00000000,\"1.0, 2.0, 3.0\"\n");
    assert_eq!(got, Ok(vec![layer("L", "#00000000", vec![circle("1.0", "2.0", "3.0")])]));
    let numbers: Vec<f64> = {
        let c = &got.unwrap()[0].circles[0];
        vec![c.x.parse().unwrap(), c.y.parse().unwrap(), c.radius.parse().unwrap()]
    };
    assert_eq!(numbers, vec![1.0, 2.0, 3.0]);
}

#[test]
fn read_has_no_header_row() {
    let got = read_csv(b"name,color,circles\nLayer 1,#1,\"1,2,3\"\n").unwrap();
    assert_eq!(got.len(), 2);
    assert_eq!(got[0], layer("name", "color", Vec::new()));
    assert_eq!(got[1], layer("Layer 1", "#1", vec![circle("1", "2", "3")]));
}

#[test]
fn read_skips_a_row_of_another_length() {
    let got = read_csv(b"a,#1,\"1,2,3\"\nonly,two\nb,#2,\"4,5,6\"\n").unwrap();
    assert_eq!(
        got,
        vec![
            layer("a", "#1", vec![circle("1", "2", "3")]),
            layer("b", "#2", vec![circle("4", "5", "6")]),
        ]
    );
}

#[test]
fn read_skips_a_row_that_is_not_text() {
    let got = read_csv(b"a,#1,\"1,2,3\"\n\xff\xfe,#2,x\nb,#3,\"4,5,6\"\n").unwrap();
    assert_eq!(got.len(), 2);
    assert_eq!(got[0].name, "a");
    assert_eq!(got[1].name, "b");
}

#[test]
fn read_ignores_fields_past_the_third() {
    let got = read_csv(b"a,#1,\"1,2,3\",extra,more\n").unwrap();
    assert_eq!(got, vec![layer("a", "#1", vec![circle("1", "2", "3")])]);
}

#[test]
fn read_fails_on_a_row_of_fewer_than_three_fields() {
    assert_eq!(read_csv(b"a,#1\nb,#2\n"), Err(DecodeError::MissingField { row: 0 }));
    assert_eq!(read_csv(b"lonely\n"), Err(DecodeError::MissingField { row: 0 }));
}

#[test]
fn read_keeps_numerals_that_spell_no_number() {
    let got = read_csv(b"a,#1,\"one,two,three\"\n").unwrap();
    assert_eq!(got[0].circles, vec![circle("one", "two", "three")]);
}

#[test]
fn rows_are_read_in_order_and_bad_ones_passed_over() {
    let rows = vec![
        fields(&["a", "#1", "1,2,3"]),
        None,
        fields(&["b", "#2", "", "spare"]),
        None,
    ];
    assert_eq!(
        layers_from_rows(rows),
        Ok(vec![layer("a", "#1", vec![circle("1", "2", "3")]), layer("b", "#2", Vec::new())])
    );
}

#[test]
fn rows_fail_at_the_first_short_one() {
    let rows = vec![
        fields(&["a", "#1", "1,2,3"]),
        None,
        fields(&["b", "#2"]),
        fields(&[]),
    ];
    assert_eq!(layers_from_rows(rows), Err(DecodeError::MissingField { row: 2 }));
    assert_eq!(layers_from_rows(vec![fields(&[])]), Err(DecodeError::MissingField { row: 0 }));
    assert_eq!(layers_from_rows(vec![None, None]), Ok(Vec::new()));
    assert_eq!(layers_from_rows(Vec::new()), Ok(Vec::new()));
}

#[test]
fn averages_are_written_as_two_fields() {
    let bytes = write_layer_avg(vec![
        (String::from("Layer 1"), String::from("7.853981633974483")),
        (String::from("Layer 2"), String::from("NaN")),
    ]);
    assert_eq!(String::from_utf8(bytes).unwrap(), "Layer 1,7.853981633974483\nLayer 2,NaN\n");
}

#[test]
fn averages_of_nothing_are_no_bytes() {
    assert_eq!(write_layer_avg(Vec::new()), Vec::<u8>::new());
}

#[test]
fn averages_have_one_row_for_each_entry() {
    let entries: Vec<(String, String)> =
        (1..=5).map(|i| (format!("Layer {}", i), format!("{}", f64::from(i) * 1.5))).collect();
    let text = String::from_utf8(write_layer_avg(entries)).unwrap();
    assert_eq!(text.lines().count(), 5);
    assert_eq!(text.lines().nth(2), Some("Layer 3,4.5"));
}
