//! From a seasonal-records response to the chart's data: validation of every
//! entity, then the running totals.

use vstd::prelude::*;
use crate::error::{first_error, lemma_first_error_is_kept, Error};
use crate::record::{
    raw_labels,
    raw_points,
    record_errors,
    RawRecord,
    RecordParser,
};
use crate::series::{
    entity_views,
    series_map_of,
    texts,
    CumulativeSeriesBuilder,
    EntityRecords,
    EntityView,
    SeriesMap,
};

verus! {

/// One entity of a seasonal-records response: its code, absent where the
/// response names no driver or no code for it, and its records by round.
#[derive(Debug, Clone, PartialEq, Eq)]
pub struct RawEntity {
    /// The entity's code.
    pub code: Option<String>,
    /// One record per completed round, earliest first.
    pub records: Option<Vec<Option<RawRecord>>>,
}

/// Why a raw entity is refused, if it is: for want of its code or of its
/// records, else for the first of its records that is refused.
pub open spec fn entity_error(raw: RawEntity) -> Option<Error> {
    if raw.code is None || raw.records is None {
        Some(Error::MissingField)
    } else {
        first_error(raw.records->0@, record_errors())
    }
}

/// Why an entity that may be absent altogether is refused, if it is: an
/// absent entity counts as a missing field.
pub open spec fn optional_entity_error(raw: Option<RawEntity>) -> Option<Error> {
    match raw {
        None => Some(Error::MissingField),
        Some(raw) => entity_error(raw),
    }
}

/// [`optional_entity_error`] as a function value.
pub open spec fn entity_errors() -> spec_fn(Option<RawEntity>) -> Option<Error> {
    |raw: Option<RawEntity>| optional_entity_error(raw)
}

/// The entity that a raw entity denotes, with the labels and the scores of
/// all its rounds; meaningful where it is not refused.
pub open spec fn raw_entity_view(raw: Option<RawEntity>) -> EntityView {
    EntityView {
        code: raw->0.code->0@,
        labels: raw_labels(raw->0.records->0@),
        points: raw_points(raw->0.records->0@),
    }
}

/// The entities that a response denotes, in order; meaningful where none is
/// refused.
pub open spec fn raw_entity_views(raws: Seq<Option<RawEntity>>) -> Seq<EntityView> {
    raws.map_values(|raw: Option<RawEntity>| raw_entity_view(raw))
}

impl EntityRecords {
    /// Validates one entity of a response.
    pub fn from_raw(raw: &RawEntity) -> (parsed: Result<EntityRecords, Error>)
        ensures
            match parsed {
                Ok(entity) => entity_error(*raw) is None && entity@ == raw_entity_view(Some(*raw)),
                Err(error) => entity_error(*raw) == Some(error),
            },
    {
        let (code, raws) = match (&raw.code, &raw.records) {
            (Some(code), Some(raws)) => (code, raws),
            _ => {
                return Err(Error::MissingField);
            },
        };
        match RecordParser::parse_all(raws) {
            Ok(records) => Ok(EntityRecords { code: code.clone(), records }),
            Err(error) => Err(error),
        }
    }

    /// Validates the entities of a response, in order, and stops at the
    /// first one that is refused. Every validated entity holds the code, the
    /// round labels and the scores that the response gave it.
    pub fn from_response(raws: &Vec<Option<RawEntity>>) -> (parsed: Result<
        Vec<EntityRecords>,
        Error,
    >)
        ensures
            match parsed {
                Ok(entities) => {
                    &&& first_error(raws@, entity_errors()) is None
                    &&& entity_views(entities@) == raw_entity_views(raws@)
                },
                Err(error) => first_error(raws@, entity_errors()) == Some(error),
            },
    {
        let mut entities: Vec<EntityRecords> = Vec::new();
        let mut at: usize = 0;
        while at < raws.len()
            invariant
                at <= raws.len(),
                entities.len() == at,
                first_error(raws@.take(at as int), entity_errors()) is None,
                forall|i: int| 0 <= i < at ==> (#[trigger] entities[i])@ == raw_entity_view(raws[i]),
            decreases raws.len() - at,
        {
            proof {
                assert(raws@.take(at + 1).drop_last() =~= raws@.take(at as int));
                lemma_first_error_is_kept(raws@, entity_errors(), at + 1);
            }
            let raw = match &raws[at] {
                Some(raw) => raw,
                None => {
                    return Err(Error::MissingField);
                },
            };
            let entity = match EntityRecords::from_raw(raw) {
                Ok(entity) => entity,
                Err(error) => {
                    return Err(error);
                },
            };
            entities.push(entity);
            at += 1;
        }
        assert(raws@.take(at as int) =~= raws@);
        assert(entity_views(entities@) =~= raw_entity_views(raws@));
        Ok(entities)
    }
}

impl CumulativeSeriesBuilder {
    /// Validates a seasonal-records response and builds the chart's data
    /// from it: the running totals by code and the round labels of the first
    /// entity. Fails with the first validation error, if there is one, and
    /// else with `EmptyInput` where the response holds no entity.
    pub fn build_from_response(raws: &Vec<Option<RawEntity>>) -> (built: Result<
        (SeriesMap, Vec<String>),
        Error,
    >)
        ensures
            built is Ok <==> first_error(raws@, entity_errors()) is None && raws.len() > 0,
            built matches Err(error) ==> error == (match first_error(raws@, entity_errors()) {
                Some(first) => first,
                None => Error::EmptyInput,
            }),
            built matches Ok((map, labels)) ==> {
                &&& map@ == series_map_of(raw_entity_views(raws@))
                &&& texts(labels@) == raw_labels(raws[0]->0.records->0@)
            },
    {
        let entities = match EntityRecords::from_response(raws) {
            Ok(entities) => entities,
            Err(error) => {
                return Err(error);
            },
        };
        assert(entities.len() == raws.len()) by {
            assert(entity_views(entities@).len() == raw_entity_views(raws@).len());
        }
        assert(entities.len() > 0 ==> entities[0]@ == raw_entity_views(raws@)[0]) by {
            if entities.len() > 0 {
                assert(entity_views(entities@)[0] == entities[0]@);
            }
        }
        CumulativeSeriesBuilder::build(&entities)
    }
}

} // verus!
