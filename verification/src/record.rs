//! Per-round records: the loosely typed form a response carries, the
//! validated form the rest of the crate works on, and the step between them.

use vstd::prelude::*;
use crate::error::{first_error, lemma_first_error_is_kept, Error};
use crate::points::{decimal_thousandths, is_points_text, Points};

verus! {

/// One round of one entity as a response carries it: every field may be
/// absent.
#[derive(Debug, Clone, PartialEq, Eq)]
pub struct RawRecord {
    /// The round's label.
    pub round: Option<String>,
    /// The points scored in that round, in decimal notation.
    pub points: Option<String>,
}

/// One round of one entity, validated.
#[derive(Debug, Clone, PartialEq, Eq)]
pub struct SeasonRecord {
    /// The round's label.
    pub round: String,
    /// The points scored in that round alone.
    pub points: Points,
}

/// The labels of a run of records, in order.
pub open spec fn round_labels(records: Seq<SeasonRecord>) -> Seq<Seq<char>> {
    records.map_values(|record: SeasonRecord| record.round@)
}

/// The points of a run of records, in order and in thousandths.
pub open spec fn round_points(records: Seq<SeasonRecord>) -> Seq<nat> {
    records.map_values(|record: SeasonRecord| record.points@)
}

/// The scores that a run of raw records denotes, in order and in
/// thousandths; meaningful where no record is refused.
pub open spec fn raw_points(raws: Seq<Option<RawRecord>>) -> Seq<nat> {
    raws.map_values(|raw: Option<RawRecord>| decimal_thousandths(raw->0.points->0@))
}

/// The labels that a run of raw records carries, in order; meaningful where
/// no record is refused.
pub open spec fn raw_labels(raws: Seq<Option<RawRecord>>) -> Seq<Seq<char>> {
    raws.map_values(|raw: Option<RawRecord>| raw->0.round->0@)
}

/// Why a raw record is refused, if it is: a missing field comes before a
/// malformed number.
pub open spec fn record_error(raw: RawRecord) -> Option<Error> {
    if raw.round is None || raw.points is None {
        Some(Error::MissingField)
    } else if !is_points_text(raw.points->0@) {
        Some(Error::InvalidNumber)
    } else {
        None
    }
}

/// Whether `record` is what `raw` says: the same label, and the score that
/// the points text denotes.
pub open spec fn record_matches(raw: RawRecord, record: SeasonRecord) -> bool {
    &&& raw.round is Some
    &&& raw.points is Some
    &&& record.round@ == raw.round->0@
    &&& record.points@ == decimal_thousandths(raw.points->0@)
}

/// Why a record that may be absent altogether is refused, if it is: an
/// absent record counts as a missing field.
pub open spec fn optional_record_error(raw: Option<RawRecord>) -> Option<Error> {
    match raw {
        None => Some(Error::MissingField),
        Some(raw) => record_error(raw),
    }
}

/// [`optional_record_error`] as a function value.
pub open spec fn record_errors() -> spec_fn(Option<RawRecord>) -> Option<Error> {
    |raw: Option<RawRecord>| optional_record_error(raw)
}

/// Validates raw records.
pub struct RecordParser;

impl RecordParser {
    /// Validates one raw record. Fails with `MissingField` where the round or
    /// the points are absent, else with `InvalidNumber` where the points text
    /// denotes no score, and succeeds otherwise.
    pub fn parse(raw: &RawRecord) -> (parsed: Result<SeasonRecord, Error>)
        ensures
            match parsed {
                Ok(record) => record_error(*raw) is None && record_matches(*raw, record),
                Err(error) => record_error(*raw) == Some(error),
            },
    {
        let round = match &raw.round {
            Some(round) => round,
            None => {
                return Err(Error::MissingField);
            },
        };
        let text = match &raw.points {
            Some(text) => text,
            None => {
                return Err(Error::MissingField);
            },
        };
        match Points::parse(text.as_str()) {
            Some(points) => Ok(SeasonRecord { round: round.clone(), points }),
            None => Err(Error::InvalidNumber),
        }
    }

    /// Validates a run of raw records, in order, and stops at the first one
    /// that fails.
    pub fn parse_all(raws: &Vec<Option<RawRecord>>) -> (parsed: Result<Vec<SeasonRecord>, Error>)
        ensures
            match parsed {
                Ok(records) => {
                    &&& first_error(raws@, record_errors()) is None
                    &&& round_labels(records@) == raw_labels(raws@)
                    &&& round_points(records@) == raw_points(raws@)
                },
                Err(error) => first_error(raws@, record_errors()) == Some(error),
            },
    {
        let mut records: Vec<SeasonRecord> = Vec::new();
        let mut at: usize = 0;
        while at < raws.len()
            invariant
                at <= raws.len(),
                records.len() == at,
                first_error(raws@.take(at as int), record_errors()) is None,
                forall|i: int|
                    0 <= i < at ==> (#[trigger] raws[i]) is Some && record_matches(
                        raws[i]->0,
                        records[i],
                    ),
            decreases raws.len() - at,
        {
            proof {
                assert(raws@.take(at + 1).drop_last() =~= raws@.take(at as int));
                lemma_first_error_is_kept(raws@, record_errors(), at + 1);
            }
            let raw = match &raws[at] {
                Some(raw) => raw,
                None => {
                    return Err(Error::MissingField);
                },
            };
            let record = match RecordParser::parse(raw) {
                Ok(record) => record,
                Err(error) => {
                    return Err(error);
                },
            };
            records.push(record);
            at += 1;
        }
        assert(raws@.take(at as int) =~= raws@);
        assert(round_labels(records@) =~= raw_labels(raws@));
        assert(round_points(records@) =~= raw_points(raws@));
        Ok(records)
    }
}

} // verus!
