use standings::error::Error;
use standings::record::{RawRecord, RecordParser};

fn raw_record(round: Option<&str>, points: Option<&str>) -> RawRecord {
    RawRecord { round: round.map(String::from), points: points.map(String::from) }
}

#[test]
fn a_complete_record_is_validated() {
    let record = RecordParser::parse(&raw_record(Some("7"), Some("12.5"))).unwrap();
    assert_eq!(record.round, "7");
    assert_eq!(record.points.thousandths(), 12_500);
}

#[test]
fn missing_points_are_a_missing_field() {
    assert_eq!(RecordParser::parse(&raw_record(Some("1"), None)), Err(Error::MissingField));
}

#[test]
fn nothing_at_all_is_a_missing_field() {
    assert_eq!(RecordParser::parse(&raw_record(None, None)), Err(Error::MissingField));
}

#[test]
fn a_missing_round_comes_before_malformed_points() {
    assert_eq!(RecordParser::parse(&raw_record(None, Some("abc"))), Err(Error::MissingField));
}

#[test]
fn negative_points_are_an_invalid_number() {
    assert_eq!(RecordParser::parse(&raw_record(Some("1"), Some("-3"))), Err(Error::InvalidNumber));
}

#[test]
fn empty_points_are_an_invalid_number() {
    assert_eq!(RecordParser::parse(&raw_record(Some("1"), Some(""))), Err(Error::InvalidNumber));
}

#[test]
fn the_round_label_is_not_interpreted() {
    let record = RecordParser::parse(&raw_record(Some("sprint"), Some("8"))).unwrap();
    assert_eq!(record.round, "sprint");
    let unnamed = RecordParser::parse(&raw_record(Some(""), Some("8"))).unwrap();
    assert_eq!(unnamed.round, "");
}

#[test]
fn no_records_validate_to_no_records() {
    assert_eq!(RecordParser::parse_all(&Vec::new()), Ok(Vec::new()));
}

#[test]
fn records_keep_their_order() {
    let raws = vec![
        Some(raw_record(Some("1"), Some("25"))),
        Some(raw_record(Some("2"), Some("0"))),
        Some(raw_record(Some("3"), Some("18"))),
    ];
    let records = RecordParser::parse_all(&raws).unwrap();
    let rounds: Vec<&str> = records.iter().map(|record| record.round.as_str()).collect();
    let points: Vec<u64> = records.iter().map(|record| record.points.thousandths()).collect();
    assert_eq!(rounds, vec!["1", "2", "3"]);
    assert_eq!(points, vec![25_000, 0, 18_000]);
}

#[test]
fn the_first_refused_record_decides_the_error() {
    let number_first = vec![
        Some(raw_record(Some("1"), Some("25"))),
        Some(raw_record(Some("2"), Some("x"))),
        Some(raw_record(None, Some("18"))),
    ];
    assert_eq!(RecordParser::parse_all(&number_first), Err(Error::InvalidNumber));
    let field_first = vec![
        Some(raw_record(None, Some("25"))),
        Some(raw_record(Some("2"), Some("x"))),
    ];
    assert_eq!(RecordParser::parse_all(&field_first), Err(Error::MissingField));
}

#[test]
fn an_absent_record_is_a_missing_field() {
    let raws = vec![Some(raw_record(Some("1"), Some("25"))), None];
    assert_eq!(RecordParser::parse_all(&raws), Err(Error::MissingField));
}

#[test]
fn points_finer_than_a_thousandth_are_a_valid_number() {
    let record = RecordParser::parse(&raw_record(Some("1"), Some("0.0001"))).unwrap();
    assert_eq!(record.points.thousandths(), 0);
    let record = RecordParser::parse(&raw_record(Some("2"), Some("12.5004"))).unwrap();
    assert_eq!(record.points.thousandths(), 12_500);
}

#[test]
fn what_is_no_decimal_is_an_invalid_number() {
    for text in ["-5", "", "NaN", "inf", "1e3", "abc", "."] {
        assert_eq!(
            RecordParser::parse(&raw_record(Some("1"), Some(text))),
            Err(Error::InvalidNumber)
        );
    }
}
