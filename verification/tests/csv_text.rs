use utah::dataframe::DataFrame;
use utah::util::error::UtahError;
use utah::util::readcsv::{frame_from_table, parse_str, try_parse_str, ReadCSV};

fn texts(labels: &Vec<String>) -> Vec<&str> {
    labels.iter().map(|l| l.as_str()).collect()
}

#[test]
fn parse_accepts_decimal_integers() {
    assert_eq!(parse_str("0"), 0);
    assert_eq!(parse_str("42"), 42);
    assert_eq!(parse_str("-17"), -17);
    assert_eq!(parse_str("+8"), 8);
    assert_eq!(parse_str("007"), 7);
    assert_eq!(parse_str("-0"), 0);
    assert_eq!(parse_str("9223372036854775807"), i64::MAX);
    assert_eq!(parse_str("-9223372036854775808"), i64::MIN);
    assert_eq!(parse_str("000000000000000000000000000000000000000000012"), 12);
}

#[test]
fn parse_agrees_with_the_standard_library() {
    for text in ["", "-", "+", "1", "-1", "+1", "12a", "a12", " 1", "1 ", "--1", "+-1", "1.5",
        "9223372036854775807", "9223372036854775808", "-9223372036854775808",
        "-9223372036854775809", "99999999999999999999999999", "0x10", "٣"] {
        assert_eq!(try_parse_str(text), text.parse::<i64>().ok(), "{}", text);
    }
}

#[test]
fn parse_rejects_everything_else() {
    assert_eq!(try_parse_str(""), None);
    assert_eq!(try_parse_str("-"), None);
    assert_eq!(try_parse_str("+"), None);
    assert_eq!(try_parse_str("1 "), None);
    assert_eq!(try_parse_str("one"), None);
    assert_eq!(try_parse_str("9223372036854775808"), None);
    assert_eq!(try_parse_str("-9223372036854775809"), None);
}

#[test]
fn frame_from_csv_text() {
    let df = DataFrame::read_csv("a,b,c\n1,2,3\n-4,5,6\n").unwrap();
    assert_eq!(df.shape(), (2, 3));
    assert_eq!(texts(df.column_labels()), vec!["a", "b", "c"]);
    assert_eq!(texts(df.row_labels()), vec!["0", "1"]);
    assert_eq!(df.to_rows(), vec![vec![1, 2, 3], vec![-4, 5, 6]]);
}

#[test]
fn frame_from_csv_text_with_quotes() {
    let df = DataFrame::read_csv("\"first, one\",b\n\"10\",20\n").unwrap();
    assert_eq!(texts(df.column_labels()), vec!["first, one", "b"]);
    assert_eq!(df.to_rows(), vec![vec![10, 20]]);
}

#[test]
fn frame_from_csv_header_only() {
    let df = DataFrame::read_csv("a,b\n").unwrap();
    assert_eq!(df.shape(), (0, 2));
    assert_eq!(texts(df.column_labels()), vec!["a", "b"]);
}

#[test]
fn csv_with_uneven_rows_is_invalid() {
    assert!(matches!(DataFrame::read_csv("a,b\n1,2\n3\n"), Err(UtahError::InvalidCsv)));
}

#[test]
fn csv_with_a_field_that_is_no_number() {
    assert!(matches!(DataFrame::read_csv("a,b\n1,x\n"), Err(UtahError::InvalidNumber)));
    assert!(matches!(DataFrame::read_csv("a,b\n1, 2\n"), Err(UtahError::InvalidNumber)));
}

#[test]
fn csv_with_a_repeated_header() {
    assert!(matches!(DataFrame::read_csv("a,a\n1,2\n"), Err(UtahError::LabelConflict)));
}

#[test]
fn table_of_fields() {
    let header = vec!["a".to_string(), "b".to_string()];
    let body = vec![
        vec!["1".to_string(), "2".to_string()],
        vec!["3".to_string(), "4".to_string()],
    ];
    let df = frame_from_table(header, &body).unwrap();
    assert_eq!(df.to_rows(), vec![vec![1, 2], vec![3, 4]]);
    assert_eq!(texts(df.row_labels()), vec!["0", "1"]);
    let header = vec!["a".to_string(), "b".to_string()];
    let uneven = vec![vec!["1".to_string()]];
    assert!(matches!(frame_from_table(header, &uneven), Err(UtahError::ShapeMismatch)));
    let header = vec!["a".to_string()];
    let bad = vec![vec!["1".to_string()], vec!["".to_string()]];
    assert!(matches!(frame_from_table(header, &bad), Err(UtahError::InvalidNumber)));
}
