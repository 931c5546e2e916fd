use standings::error::Error;
use standings::record::{RawRecord, RecordParser, SeasonRecord};
use standings::selection::{SelectionSet, SeriesSelector};
use standings::series::{CumulativeSeries, CumulativeSeriesBuilder, EntityRecords, SeriesMap};

fn raw(round: Option<&str>, points: Option<&str>) -> RawRecord {
    RawRecord { round: round.map(String::from), points: points.map(String::from) }
}

fn record(round: &str, points: &str) -> SeasonRecord {
    RecordParser::parse(&raw(Some(round), Some(points))).unwrap()
}

fn entity(code: &str, rounds: &[(&str, &str)]) -> EntityRecords {
    EntityRecords {
        code: code.to_string(),
        records: rounds.iter().map(|(round, points)| record(round, points)).collect(),
    }
}

fn in_points(series: &CumulativeSeries) -> Vec<f64> {
    series.to_thousandths().iter().map(|total| *total as f64 / 1000.0).collect()
}

fn codes_in(map: &SeriesMap) -> Vec<String> {
    (0..map.len()).map(|i| map.code_at(i).clone()).collect()
}

fn ham_and_ver() -> Vec<EntityRecords> {
    vec![
        entity("HAM", &[("1", "25"), ("2", "18")]),
        entity("VER", &[("1", "18"), ("2", "25")]),
    ]
}

fn selection_of(codes: &[&str]) -> SelectionSet {
    let mut selection = SelectionSet::new();
    for code in codes {
        selection.insert(code.to_string());
    }
    selection
}

#[test]
fn parse_then_sum_gives_running_totals_and_labels() {
    let raws = vec![
        Some(raw(Some("1"), Some("10"))),
        Some(raw(Some("2"), Some("15"))),
        Some(raw(Some("3"), Some("0"))),
    ];
    let records = RecordParser::parse_all(&raws).unwrap();
    let series = CumulativeSeries::of(&records);
    assert_eq!(in_points(&series), vec![10.0, 25.0, 25.0]);
    let labels = CumulativeSeriesBuilder::labels(&records);
    assert_eq!(labels, vec!["1".to_string(), "2".to_string(), "3".to_string()]);
}

#[test]
fn two_drivers_build_and_select() {
    let (map, labels) = CumulativeSeriesBuilder::build(&ham_and_ver()).unwrap();
    assert_eq!(labels, vec!["1".to_string(), "2".to_string()]);
    assert_eq!(map.len(), 2);
    assert_eq!(in_points(map.get("HAM").unwrap()), vec![25.0, 43.0]);
    assert_eq!(in_points(map.get("VER").unwrap()), vec![18.0, 43.0]);

    let (series, codes) = SeriesSelector::select(&map, &selection_of(&["VER"]));
    assert_eq!(codes, vec!["VER".to_string()]);
    assert_eq!(series.len(), 1);
    assert_eq!(in_points(&series[0]), vec![18.0, 43.0]);
}

#[test]
fn missing_round_is_a_missing_field() {
    assert_eq!(RecordParser::parse(&raw(None, Some("10"))), Err(Error::MissingField));
}

#[test]
fn malformed_points_are_an_invalid_number() {
    assert_eq!(RecordParser::parse(&raw(Some("1"), Some("abc"))), Err(Error::InvalidNumber));
}

#[test]
fn no_entities_is_empty_input() {
    assert_eq!(CumulativeSeriesBuilder::build(&Vec::new()).err(), Some(Error::EmptyInput));
}

#[test]
fn a_series_has_one_total_per_round_and_ends_in_the_sum() {
    let rounds = [("1", "25"), ("2", "0"), ("3", "12.5"), ("4", "18"), ("5", "0.5")];
    let one = entity("ALO", &rounds);
    let series = CumulativeSeries::of(&one.records);
    assert_eq!(series.len(), rounds.len());
    let sum: u128 = one.records.iter().map(|r| r.points.thousandths() as u128).sum();
    assert_eq!(sum, 56_000);
    assert_eq!(series.total_at(rounds.len() - 1), sum);
    assert_eq!(series.to_thousandths(), vec![25_000, 25_000, 37_500, 55_500, 56_000]);
}

#[test]
fn a_series_never_decreases() {
    let one = entity("ALO", &[("1", "4"), ("2", "0"), ("3", "0"), ("4", "1"), ("5", "0")]);
    let totals = CumulativeSeries::of(&one.records).to_thousandths();
    assert!(totals.windows(2).all(|pair| pair[0] <= pair[1]));
}

#[test]
fn a_season_without_rounds_gives_empty_series() {
    let (map, labels) = CumulativeSeriesBuilder::build(&vec![entity("HAM", &[])]).unwrap();
    assert_eq!(labels, Vec::<String>::new());
    assert_eq!(map.len(), 1);
    assert_eq!(map.series_at(0).len(), 0);
    assert_eq!(map.series_at(0).get(0), None);
}

#[test]
fn sums_of_the_largest_scores_do_not_overflow() {
    let most = "18446744073709551.615";
    let one = entity("MAX", &[("1", most), ("2", most), ("3", most)]);
    let totals = CumulativeSeries::of(&one.records).to_thousandths();
    assert_eq!(totals, vec![u64::MAX as u128, 2 * (u64::MAX as u128), 3 * (u64::MAX as u128)]);
}

#[test]
fn labels_come_from_the_first_entity_alone() {
    let entities = vec![
        entity("HAM", &[("1", "25")]),
        entity("VER", &[("Bahrain", "18"), ("Jeddah", "25")]),
    ];
    let (map, labels) = CumulativeSeriesBuilder::build(&entities).unwrap();
    assert_eq!(labels, vec!["1".to_string()]);
    assert_eq!(map.series_at(1).len(), 2);
}

#[test]
fn entries_keep_the_order_of_the_entities() {
    let entities = vec![
        entity("VER", &[("1", "25")]),
        entity("ALO", &[("1", "15")]),
        entity("HAM", &[("1", "18")]),
    ];
    let (map, _) = CumulativeSeriesBuilder::build(&entities).unwrap();
    assert_eq!(codes_in(&map), vec!["VER", "ALO", "HAM"]);
}

#[test]
fn a_repeated_code_keeps_its_place_and_the_later_series() {
    let entities = vec![
        entity("HAM", &[("1", "25")]),
        entity("VER", &[("1", "18")]),
        entity("HAM", &[("1", "1"), ("2", "2")]),
    ];
    let (map, _) = CumulativeSeriesBuilder::build(&entities).unwrap();
    assert_eq!(codes_in(&map), vec!["HAM", "VER"]);
    assert_eq!(in_points(map.get("HAM").unwrap()), vec![1.0, 3.0]);
}

#[test]
fn building_leaves_the_input_as_it_was() {
    let entities = ham_and_ver();
    let before = entities.clone();
    let _ = CumulativeSeriesBuilder::build(&entities);
    assert_eq!(entities, before);
}

#[test]
fn a_map_finds_what_was_inserted() {
    let mut map = SeriesMap::new();
    assert_eq!(map.len(), 0);
    assert_eq!(map.get("HAM"), None);
    map.insert("HAM".to_string(), CumulativeSeries::of(&entity("HAM", &[("1", "25")]).records));
    map.insert("VER".to_string(), CumulativeSeries::of(&entity("VER", &[("1", "18")]).records));
    assert_eq!(map.position("HAM"), Some(0));
    assert_eq!(map.position("VER"), Some(1));
    assert_eq!(map.position("ALO"), None);
    assert_eq!(map.series_at(1).to_thousandths(), vec![18_000]);
    map.insert("HAM".to_string(), CumulativeSeries::of(&entity("HAM", &[("1", "1")]).records));
    assert_eq!(map.len(), 2);
    assert_eq!(map.position("HAM"), Some(0));
    assert_eq!(map.series_at(0).to_thousandths(), vec![1_000]);
}

#[test]
fn a_copied_series_equals_its_source() {
    let series = CumulativeSeries::of(&entity("HAM", &[("1", "25"), ("2", "18")]).records);
    assert_eq!(series.clone(), series);
}

#[test]
fn an_empty_selection_shows_everything_in_order() {
    let entities = vec![
        entity("VER", &[("1", "25"), ("2", "25")]),
        entity("ALO", &[("1", "15"), ("2", "15")]),
        entity("HAM", &[("1", "18"), ("2", "10")]),
    ];
    let (map, _) = CumulativeSeriesBuilder::build(&entities).unwrap();
    let (series, codes) = SeriesSelector::select(&map, &SelectionSet::new());
    assert_eq!(codes, vec!["VER", "ALO", "HAM"]);
    let shown: Vec<Vec<f64>> = series.iter().map(in_points).collect();
    assert_eq!(shown, vec![vec![25.0, 50.0], vec![15.0, 30.0], vec![18.0, 28.0]]);
}

#[test]
fn a_selection_of_strangers_shows_nothing() {
    let (map, _) = CumulativeSeriesBuilder::build(&ham_and_ver()).unwrap();
    let (series, codes) = SeriesSelector::select(&map, &selection_of(&["ALO", "SAI"]));
    assert!(series.is_empty());
    assert!(codes.is_empty());
}

#[test]
fn the_map_decides_the_order_not_the_selection() {
    let entities = vec![
        entity("VER", &[("1", "25")]),
        entity("ALO", &[("1", "15")]),
        entity("HAM", &[("1", "18")]),
    ];
    let (map, _) = CumulativeSeriesBuilder::build(&entities).unwrap();
    let (series, codes) = SeriesSelector::select(&map, &selection_of(&["HAM", "ZZZ", "VER"]));
    assert_eq!(codes, vec!["VER", "HAM"]);
    let shown: Vec<Vec<f64>> = series.iter().map(in_points).collect();
    assert_eq!(shown, vec![vec![25.0], vec![18.0]]);
}

#[test]
fn an_empty_map_shows_nothing_under_any_selection() {
    let map = SeriesMap::new();
    let (series, codes) = SeriesSelector::select(&map, &SelectionSet::new());
    assert!(series.is_empty() && codes.is_empty());
    let (series, codes) = SeriesSelector::select(&map, &selection_of(&["HAM"]));
    assert!(series.is_empty() && codes.is_empty());
}

#[test]
fn codes_are_compared_exactly() {
    let (map, _) = CumulativeSeriesBuilder::build(&ham_and_ver()).unwrap();
    let (_, codes) = SeriesSelector::select(&map, &selection_of(&["ham", "VER "]));
    assert!(codes.is_empty());
}
