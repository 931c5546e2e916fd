//! The rows of a season's race schedule, as a table shows them.

use vstd::prelude::*;
use crate::error::{first_error, lemma_first_error_is_kept, Error};
use crate::optional::{copy_of, present, present_rows};

verus! {

/// A circuit as a schedule response carries it.
#[derive(Debug, Clone, PartialEq, Eq)]
pub struct RawCircuit {
    /// The circuit's name.
    pub circuit_name: Option<String>,
    /// Where a picture of the circuit is found; may be empty.
    pub img: Option<String>,
}

/// One race of a schedule response.
#[derive(Debug, Clone, PartialEq, Eq)]
pub struct RawRace {
    /// The round's label.
    pub round: Option<String>,
    /// The race's name.
    pub race_name: Option<String>,
    /// The day of the race.
    pub date: Option<String>,
    /// Where more about the race is found.
    pub url: Option<String>,
    /// Where the race is run.
    pub circuit: Option<RawCircuit>,
}

/// A text that links somewhere.
#[derive(Debug, Clone, PartialEq, Eq)]
pub struct Link {
    /// What is shown.
    pub label: String,
    /// Where it leads.
    pub url: String,
}

/// What a schedule table shows of a race's circuit.
#[derive(Debug, Clone, PartialEq, Eq)]
pub enum CircuitCell {
    /// Nothing: the name or the image field was absent.
    Empty,
    /// The name alone: the image field was there but empty.
    Name(String),
    /// The name, with an image to go with it.
    NameWithImage {
        /// The circuit's name.
        name: String,
        /// Where the image is found.
        image: String,
    },
}

/// One row of a schedule table. Every cell but the circuit's may be empty.
#[derive(Debug, Clone, PartialEq, Eq)]
pub struct RaceRow {
    /// The round's label.
    pub round: Option<String>,
    /// The race's name, linked; shown only where both name and link are
    /// there.
    pub race: Option<Link>,
    /// The race's date.
    pub date: Option<String>,
    /// The circuit.
    pub circuit: CircuitCell,
}

/// A circuit cell as a mathematical value.
pub ghost enum CircuitCellView {
    /// Nothing.
    Empty,
    /// The name alone.
    Name(Seq<char>),
    /// The name with an image.
    NameWithImage {
        /// The circuit's name.
        name: Seq<char>,
        /// Where the image is found.
        image: Seq<char>,
    },
}

impl View for CircuitCell {
    type V = CircuitCellView;

    open spec fn view(&self) -> CircuitCellView {
        match self {
            CircuitCell::Empty => CircuitCellView::Empty,
            CircuitCell::Name(name) => CircuitCellView::Name(name@),
            CircuitCell::NameWithImage { name, image } => CircuitCellView::NameWithImage {
                name: name@,
                image: image@,
            },
        }
    }
}

/// The text of a string that may be absent.
pub open spec fn text_of(text: Option<String>) -> Option<Seq<char>> {
    match text {
        Some(text) => Some(text@),
        None => None,
    }
}

/// The cell for a circuit: empty unless both name and image field are there,
/// and with the image only where the field is not empty.
pub open spec fn circuit_cell(raw: RawCircuit) -> CircuitCellView {
    match (raw.circuit_name, raw.img) {
        (Some(name), Some(image)) => if image@.len() == 0 {
            CircuitCellView::Name(name@)
        } else {
            CircuitCellView::NameWithImage { name: name@, image: image@ }
        },
        _ => CircuitCellView::Empty,
    }
}

/// The linked name of a race: there only where both name and link are.
pub open spec fn race_link(raw: RawRace) -> Option<(Seq<char>, Seq<char>)> {
    match (raw.race_name, raw.url) {
        (Some(name), Some(url)) => Some((name@, url@)),
        _ => None,
    }
}

/// Why a race is refused, if it is: only for want of its circuit.
pub open spec fn race_error(raw: RawRace) -> Option<Error> {
    if raw.circuit is None {
        Some(Error::MissingField)
    } else {
        None
    }
}

/// [`race_error`] as a function value.
pub open spec fn race_errors() -> spec_fn(RawRace) -> Option<Error> {
    |raw: RawRace| race_error(raw)
}

/// Whether `row` is what the race `raw` says.
pub open spec fn race_row_matches(raw: RawRace, row: RaceRow) -> bool {
    &&& raw.circuit is Some
    &&& text_of(row.round) == text_of(raw.round)
    &&& text_of(row.date) == text_of(raw.date)
    &&& match row.race {
        Some(link) => race_link(raw) == Some((link.label@, link.url@)),
        None => race_link(raw) is None,
    }
    &&& row.circuit@ == circuit_cell(raw.circuit->0)
}

impl CircuitCell {
    /// The cell for a circuit.
    pub fn of(raw: &RawCircuit) -> (cell: CircuitCell)
        ensures
            cell@ == circuit_cell(*raw),
    {
        match (&raw.circuit_name, &raw.img) {
            (Some(name), Some(image)) => if image.as_str().is_empty() {
                CircuitCell::Name(name.clone())
            } else {
                CircuitCell::NameWithImage { name: name.clone(), image: image.clone() }
            },
            _ => CircuitCell::Empty,
        }
    }
}

impl RaceRow {
    /// The row for one race of a response. Fails with `MissingField` exactly
    /// where the race has no circuit.
    pub fn from_raw(raw: &RawRace) -> (parsed: Result<RaceRow, Error>)
        ensures
            match parsed {
                Ok(row) => race_error(*raw) is None && race_row_matches(*raw, row),
                Err(error) => race_error(*raw) == Some(error),
            },
    {
        let circuit = match &raw.circuit {
            Some(circuit) => circuit,
            None => {
                return Err(Error::MissingField);
            },
        };
        let race = match (&raw.race_name, &raw.url) {
            (Some(name), Some(url)) => Some(Link { label: name.clone(), url: url.clone() }),
            _ => None,
        };
        Ok(
            RaceRow {
                round: copy_of(&raw.round),
                race,
                date: copy_of(&raw.date),
                circuit: CircuitCell::of(circuit),
            },
        )
    }

    /// The rows of a schedule table: the races of the response that are
    /// there, in the response's order. Fails with the error of the first
    /// race that is refused.
    pub fn from_response(raws: &Vec<Option<RawRace>>) -> (parsed: Result<Vec<RaceRow>, Error>)
        ensures
            match parsed {
                Ok(rows) => {
                    &&& first_error(present(raws@), race_errors()) is None
                    &&& rows.len() == present(raws@).len()
                    &&& forall|i: int|
                        0 <= i < rows.len() ==> race_row_matches(
                            present(raws@)[i],
                            #[trigger] rows[i],
                        )
                },
                Err(error) => first_error(present(raws@), race_errors()) == Some(
                    error,
                ),
            },
    {
        let there = present_rows(raws);
        let ghost given = present(raws@);
        let mut rows: Vec<RaceRow> = Vec::new();
        let mut at: usize = 0;
        while at < there.len()
            invariant
                at <= there.len(),
                given == present(raws@),
                given == there@.map_values(|row: &RawRace| *row),
                rows.len() == at,
                first_error(given.take(at as int), race_errors()) is None,
                forall|i: int| 0 <= i < at ==> race_row_matches(given[i], #[trigger] rows[i]),
            decreases there.len() - at,
        {
            proof {
                assert(given.take(at + 1).drop_last() =~= given.take(at as int));
                assert(given.take(at + 1).last() == *there[at as int]);
                lemma_first_error_is_kept(given, race_errors(), at + 1);
            }
            let row = match RaceRow::from_raw(there[at]) {
                Ok(row) => row,
                Err(error) => {
                    return Err(error);
                },
            };
            rows.push(row);
            at += 1;
        }
        assert(given.take(at as int) =~= given);
        Ok(rows)
    }
}

} // verus!
