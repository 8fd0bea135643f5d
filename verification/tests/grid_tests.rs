//! Grid normalization through the page-level parser: span expansion,
//! padding, and the JSON rendering of parsed tables.

use bort_data::table::parse_table_data;

fn table_of(result: &bort_data::table::ParsedTableData, i: usize) -> serde_json::Value {
    serde_json::from_str(&result.data[i]).expect("parsed table should be valid JSON")
}

#[test]
fn test_parse_table_data_valid() {
    let input = r#"
        <table class="table_fixed">
            <tr><th>列1</th><th>列2</th></tr>
            <tr><td>値1-1</td><td>値1-2</td></tr>
            <tr><td>値2-1</td><td>値2-2</td></tr>
        </table>
    "#;
    let result = parse_table_data(input).unwrap();

    assert!(result.line_count > 0);
    assert_eq!(result.data.len(), 1);

    let table = table_of(&result, 0);
    assert_eq!(table["headers"][0], "列1");
    assert_eq!(table["headers"][1], "列2");
    assert_eq!(table["rows"].as_array().unwrap().len(), 2);
    assert_eq!(table["rows"][0][0], "値1-1");
    assert_eq!(table["rows"][0][1], "値1-2");
    assert_eq!(table["rows"][1][0], "値2-1");
    assert_eq!(table["rows"][1][1], "値2-2");
}

#[test]
fn test_parse_table_data_empty() {
    let input = "";
    let result = parse_table_data(input);

    match result {
        Err(e) => assert_eq!(e, "入力データが空です"),
        Ok(_) => panic!("blank input must be rejected"),
    }
}

#[test]
fn test_parse_table_data_single_table() {
    let input = r#"
        <table class="table_fixed">
            <tr><th>ヘッダー</th></tr>
            <tr><td>データ</td></tr>
        </table>
    "#;
    let result = parse_table_data(input).unwrap();

    assert_eq!(result.data.len(), 1);

    let table = table_of(&result, 0);
    assert_eq!(table["headers"].as_array().unwrap().len(), 1);
    assert_eq!(table["headers"][0], "ヘッダー");
    assert_eq!(table["rows"].as_array().unwrap().len(), 1);
    assert_eq!(table["rows"][0][0], "データ");
}

#[test]
fn test_normalize_table_with_colspan() {
    let input = r#"
        <table class="table_fixed">
            <tr>
                <th colspan="3">タイトル</th>
            </tr>
            <tr>
                <td>A</td>
                <td>B</td>
                <td>C</td>
            </tr>
        </table>
    "#;
    let result = parse_table_data(input).unwrap();
    let table = table_of(&result, 0);

    let headers = table["headers"].as_array().unwrap();
    assert_eq!(headers.len(), 3);
    assert_eq!(headers[0], "タイトル");
    assert_eq!(headers[1], "");
    assert_eq!(headers[2], "");

    let row0 = table["rows"][0].as_array().unwrap();
    assert_eq!(row0.len(), 3);
    assert_eq!(row0[0], "A");
    assert_eq!(row0[1], "B");
    assert_eq!(row0[2], "C");
}

#[test]
fn test_normalize_table_with_rowspan() {
    let input = r#"
        <table class="table_fixed">
            <tr>
                <th>列1</th>
                <th>列2</th>
            </tr>
            <tr>
                <td rowspan="2">A</td>
                <td>B1</td>
            </tr>
            <tr>
                <td>B2</td>
            </tr>
        </table>
    "#;
    let result = parse_table_data(input).unwrap();
    let table = table_of(&result, 0);

    assert_eq!(table["headers"][0], "列1");
    assert_eq!(table["headers"][1], "列2");

    let rows = table["rows"].as_array().unwrap();
    assert_eq!(rows.len(), 2);
    assert_eq!(table["rows"][0][0], "A");
    assert_eq!(table["rows"][0][1], "B1");
    assert_eq!(table["rows"][1][0], "");
    assert_eq!(table["rows"][1][1], "B2");
}

#[test]
fn test_normalize_table_with_complex_spans() {
    let input = r#"
        <table class="table_fixed">
            <tr>
                <th rowspan="2">枠</th>
                <th colspan="2">データ</th>
            </tr>
            <tr>
                <th>列A</th>
                <th>列B</th>
            </tr>
            <tr>
                <td>1</td>
                <td>X</td>
                <td>Y</td>
            </tr>
        </table>
    "#;
    let result = parse_table_data(input).unwrap();
    let table = table_of(&result, 0);

    let headers = table["headers"].as_array().unwrap();
    assert_eq!(headers.len(), 3);
    assert_eq!(headers[0], "枠");
    assert_eq!(headers[1], "データ");
    assert_eq!(headers[2], "");

    let rows = table["rows"].as_array().unwrap();
    assert_eq!(rows.len(), 2);
    assert_eq!(table["rows"][0].as_array().unwrap().len(), 3);
    assert_eq!(table["rows"][0][0], "");
    assert_eq!(table["rows"][0][1], "列A");
    assert_eq!(table["rows"][0][2], "列B");
    assert_eq!(table["rows"][1][0], "1");
    assert_eq!(table["rows"][1][1], "X");
    assert_eq!(table["rows"][1][2], "Y");
}

#[test]
fn test_no_spans_keeps_literal_grid() {
    // A span-free, rectangular table comes back cell for cell, with no
    // added empties.
    let input = r#"
        <table class="table_fixed">
            <tr><th>h1</th><th>h2</th><th>h3</th></tr>
            <tr><td>a</td><td>b</td><td>c</td></tr>
            <tr><td>d</td><td>e</td><td>f</td></tr>
        </table>
    "#;
    let result = parse_table_data(input).unwrap();
    let table = table_of(&result, 0);

    let headers = table["headers"].as_array().unwrap();
    assert_eq!(headers.len(), 3);
    assert_eq!(headers[0], "h1");
    assert_eq!(headers[2], "h3");
    let rows = table["rows"].as_array().unwrap();
    assert_eq!(rows.len(), 2);
    for row in rows {
        assert_eq!(row.as_array().unwrap().len(), 3);
    }
    assert_eq!(table["rows"][0][0], "a");
    assert_eq!(table["rows"][1][2], "f");
}

#[test]
fn test_normalizer_is_deterministic() {
    // Running the normalizer twice on one fragment yields identical output.
    let input = r#"
        <table class="table_fixed">
            <tr><th rowspan="2">枠</th><th colspan="2">データ</th></tr>
            <tr><th>列A</th><th>列B</th></tr>
            <tr><td>1</td><td>X</td><td>Y</td></tr>
        </table>
    "#;
    let first = parse_table_data(input).unwrap();
    let second = parse_table_data(input).unwrap();
    assert_eq!(first.data, second.data);
    assert_eq!(first.summary, second.summary);
    assert_eq!(first.line_count, second.line_count);
    assert_eq!(first.char_count, second.char_count);
}

#[test]
fn test_parse_table_data_no_table() {
    match parse_table_data("<p>no tables here</p>") {
        Err(e) => assert_eq!(e, "table not found"),
        Ok(_) => panic!("a page without fixed tables must be rejected"),
    }
}

#[test]
fn test_json_escaping_round_trip() {
    let input = "<table class=\"table_fixed\"><tr><th>a\"b\\c</th></tr><tr><td>x</td></tr></table>";
    let result = parse_table_data(input).unwrap();
    let table = table_of(&result, 0);
    assert_eq!(table["headers"][0], "a\"b\\c");
}
