use standings::error::Error;
use standings::schedule::{CircuitCell, Link, RaceRow, RawCircuit, RawRace};

fn text(value: &str) -> Option<String> {
    Some(value.to_string())
}

fn race(round: &str, image: &str) -> RawRace {
    RawRace {
        round: text(round),
        race_name: text("Monaco Grand Prix"),
        date: text("2023-05-28"),
        url: text("https://example.org/monaco"),
        circuit: Some(RawCircuit { circuit_name: text("Circuit de Monaco"), img: text(image) }),
    }
}

#[test]
fn a_complete_race_fills_every_cell() {
    let row = RaceRow::from_raw(&race("6", "monaco.png")).unwrap();
    assert_eq!(row.round, text("6"));
    assert_eq!(row.date, text("2023-05-28"));
    assert_eq!(
        row.race,
        Some(Link {
            label: "Monaco Grand Prix".to_string(),
            url: "https://example.org/monaco".to_string(),
        })
    );
    assert_eq!(
        row.circuit,
        CircuitCell::NameWithImage {
            name: "Circuit de Monaco".to_string(),
            image: "monaco.png".to_string(),
        }
    );
}

#[test]
fn an_empty_image_leaves_the_name_alone() {
    let row = RaceRow::from_raw(&race("6", "")).unwrap();
    assert_eq!(row.circuit, CircuitCell::Name("Circuit de Monaco".to_string()));
}

#[test]
fn a_circuit_without_name_or_image_field_shows_nothing() {
    let no_image = RawCircuit { circuit_name: text("Circuit de Monaco"), img: None };
    assert_eq!(CircuitCell::of(&no_image), CircuitCell::Empty);
    let no_name = RawCircuit { circuit_name: None, img: text("monaco.png") };
    assert_eq!(CircuitCell::of(&no_name), CircuitCell::Empty);
    assert_eq!(CircuitCell::of(&RawCircuit { circuit_name: None, img: None }), CircuitCell::Empty);
}

#[test]
fn a_race_name_is_shown_only_with_its_link() {
    let mut no_url = race("6", "monaco.png");
    no_url.url = None;
    assert_eq!(RaceRow::from_raw(&no_url).unwrap().race, None);
    let mut no_name = race("6", "monaco.png");
    no_name.race_name = None;
    assert_eq!(RaceRow::from_raw(&no_name).unwrap().race, None);
}

#[test]
fn missing_round_and_date_leave_their_cells_empty() {
    let mut bare = race("6", "monaco.png");
    bare.round = None;
    bare.date = None;
    let row = RaceRow::from_raw(&bare).unwrap();
    assert_eq!(row.round, None);
    assert_eq!(row.date, None);
    assert!(row.race.is_some());
}

#[test]
fn a_race_without_circuit_is_a_missing_field() {
    let mut nowhere = race("6", "monaco.png");
    nowhere.circuit = None;
    assert_eq!(RaceRow::from_raw(&nowhere), Err(Error::MissingField));
}

#[test]
fn absent_races_are_passed_over() {
    let raws = vec![None, Some(race("1", "")), None, Some(race("2", "x.png")), None];
    let rows = RaceRow::from_response(&raws).unwrap();
    let rounds: Vec<Option<String>> = rows.iter().map(|row| row.round.clone()).collect();
    assert_eq!(rounds, vec![text("1"), text("2")]);
    assert_eq!(RaceRow::from_response(&Vec::new()), Ok(Vec::new()));
}

#[test]
fn one_race_without_circuit_refuses_the_schedule() {
    let mut nowhere = race("2", "");
    nowhere.circuit = None;
    let raws = vec![Some(race("1", "")), Some(nowhere), Some(race("3", ""))];
    assert_eq!(RaceRow::from_response(&raws), Err(Error::MissingField));
}
