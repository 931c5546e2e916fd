//! Ranking of a standings table and the token shown for each rank.

use vstd::prelude::*;
use vstd::string::{StrSliceExecFns, StringExecFns};
use crate::error::{first_error, lemma_first_error_is_kept, Error};
use crate::optional::{copy_of, present, present_rows};
use crate::points::{decimal_thousandths, is_points_text, Points};

verus! {

/// What a standings table shows in its position column.
#[derive(Debug, Clone, PartialEq, Eq)]
pub enum DisplayToken {
    /// First place.
    Gold,
    /// Second place.
    Silver,
    /// Third place.
    Bronze,
    /// Any other position, shown as the text that was given.
    Numeric(String),
}

/// The mathematical value of a [`DisplayToken`].
pub ghost enum TokenView {
    /// First place.
    Gold,
    /// Second place.
    Silver,
    /// Third place.
    Bronze,
    /// Any other position, as the text that was given.
    Numeric(Seq<char>),
}

impl View for DisplayToken {
    type V = TokenView;

    open spec fn view(&self) -> TokenView {
        match self {
            DisplayToken::Gold => TokenView::Gold,
            DisplayToken::Silver => TokenView::Silver,
            DisplayToken::Bronze => TokenView::Bronze,
            DisplayToken::Numeric(text) => TokenView::Numeric(text@),
        }
    }
}

/// The token for a position text: a medal for exactly `"1"`, `"2"` or `"3"`,
/// and the text itself for everything else.
pub open spec fn position_token(position: Seq<char>) -> TokenView {
    if position == seq!['1'] {
        TokenView::Gold
    } else if position == seq!['2'] {
        TokenView::Silver
    } else if position == seq!['3'] {
        TokenView::Bronze
    } else {
        TokenView::Numeric(position)
    }
}

/// A driver or a constructor as a standings table names it.
#[derive(Debug, Clone, PartialEq, Eq)]
pub struct Entity {
    /// What identifies the entity within a response.
    pub code: String,
    /// The name to show.
    pub display_name: String,
    /// Where the name links to, if anywhere.
    pub profile_url: Option<String>,
}

/// One row of a standings table.
#[derive(Debug, Clone, PartialEq, Eq)]
pub struct StandingRow {
    /// Who the row is about.
    pub entity: Entity,
    /// The rank, as the text the backend assigned.
    pub position: String,
    /// The season's total so far.
    pub points: Points,
}

/// A driver as a standings response carries it.
#[derive(Debug, Clone, PartialEq, Eq)]
pub struct RawDriver {
    /// The short code that identifies the driver.
    pub code: Option<String>,
    /// The given name.
    pub given_name: Option<String>,
    /// The family name.
    pub family_name: Option<String>,
    /// Where the driver's profile is found.
    pub url: Option<String>,
}

/// One row of a driver standings response.
#[derive(Debug, Clone, PartialEq, Eq)]
pub struct RawDriverStanding {
    /// The rank, counted from 1.
    pub position: Option<String>,
    /// The season's total so far, in decimal notation.
    pub points: Option<String>,
    /// Who the row is about.
    pub driver: Option<RawDriver>,
}

/// A constructor as a standings response carries it.
#[derive(Debug, Clone, PartialEq, Eq)]
pub struct RawTeam {
    /// The team's name.
    pub name: Option<String>,
    /// Where the team's profile is found.
    pub url: Option<String>,
}

/// One row of a constructor standings response.
#[derive(Debug, Clone, PartialEq, Eq)]
pub struct RawTeamStanding {
    /// The rank, counted from 1.
    pub position: Option<String>,
    /// The season's total so far, in decimal notation.
    pub points: Option<String>,
    /// Who the row is about.
    pub team: Option<RawTeam>,
}

/// A driver's name as shown: given name, one space, family name.
pub open spec fn full_name(given: Seq<char>, family: Seq<char>) -> Seq<char> {
    given + seq![' '] + family
}

/// Why a points text is refused as a row's total, if it is.
pub open spec fn total_error(points: Option<String>) -> Option<Error> {
    match points {
        None => Some(Error::MissingField),
        Some(text) => if is_points_text(text@) {
            None
        } else {
            Some(Error::InvalidNumber)
        },
    }
}

/// Why a driver row is refused, if it is. The position, the points, the
/// driver, its code and both names are needed; the link is not. A missing
/// field comes before a malformed number.
pub open spec fn driver_row_error(raw: RawDriverStanding) -> Option<Error> {
    if raw.position is None || raw.driver is None || raw.driver->0.code is None
        || raw.driver->0.given_name is None || raw.driver->0.family_name is None {
        Some(Error::MissingField)
    } else {
        total_error(raw.points)
    }
}

/// Whether `row` is what the driver row `raw` says.
pub open spec fn driver_row_matches(raw: RawDriverStanding, row: StandingRow) -> bool {
    &&& raw.position is Some && raw.points is Some && raw.driver is Some
    &&& raw.driver->0.code is Some && raw.driver->0.given_name is Some
    &&& raw.driver->0.family_name is Some
    &&& row.position@ == raw.position->0@
    &&& row.points@ == decimal_thousandths(raw.points->0@)
    &&& row.entity.code@ == raw.driver->0.code->0@
    &&& row.entity.display_name@ == full_name(
        raw.driver->0.given_name->0@,
        raw.driver->0.family_name->0@,
    )
    &&& row.entity.profile_url == raw.driver->0.url
}

/// Why a constructor row is refused, if it is. The position, the points, the
/// team and its name are needed; the link is not.
pub open spec fn team_row_error(raw: RawTeamStanding) -> Option<Error> {
    if raw.position is None || raw.team is None || raw.team->0.name is None {
        Some(Error::MissingField)
    } else {
        total_error(raw.points)
    }
}

/// Whether `row` is what the constructor row `raw` says: a team is
/// identified by its name.
pub open spec fn team_row_matches(raw: RawTeamStanding, row: StandingRow) -> bool {
    &&& raw.position is Some && raw.points is Some && raw.team is Some
    &&& raw.team->0.name is Some
    &&& row.position@ == raw.position->0@
    &&& row.points@ == decimal_thousandths(raw.points->0@)
    &&& row.entity.code@ == raw.team->0.name->0@
    &&& row.entity.display_name@ == raw.team->0.name->0@
    &&& row.entity.profile_url == raw.team->0.url
}

/// [`driver_row_error`] as a function value.
pub open spec fn driver_row_errors() -> spec_fn(RawDriverStanding) -> Option<Error> {
    |raw: RawDriverStanding| driver_row_error(raw)
}

/// [`team_row_error`] as a function value.
pub open spec fn team_row_errors() -> spec_fn(RawTeamStanding) -> Option<Error> {
    |raw: RawTeamStanding| team_row_error(raw)
}

/// Reads a row's total.
fn parse_total(points: &Option<String>) -> (parsed: Result<Points, Error>)
    ensures
        match parsed {
            Ok(total) => total_error(*points) is None && total@ == decimal_thousandths(
                points->0@,
            ),
            Err(error) => total_error(*points) == Some(error),
        },
{
    match points {
        None => Err(Error::MissingField),
        Some(text) => match Points::parse(text.as_str()) {
            Some(total) => Ok(total),
            None => Err(Error::InvalidNumber),
        },
    }
}

impl StandingRow {
    /// Validates one row of a driver standings response.
    pub fn from_driver(raw: &RawDriverStanding) -> (parsed: Result<StandingRow, Error>)
        ensures
            match parsed {
                Ok(row) => driver_row_error(*raw) is None && driver_row_matches(*raw, row),
                Err(error) => driver_row_error(*raw) == Some(error),
            },
    {
        let (position, driver) = match (&raw.position, &raw.driver) {
            (Some(position), Some(driver)) => (position, driver),
            _ => {
                return Err(Error::MissingField);
            },
        };
        let (code, given, family) = match (&driver.code, &driver.given_name, &driver.family_name) {
            (Some(code), Some(given), Some(family)) => (code, given, family),
            _ => {
                return Err(Error::MissingField);
            },
        };
        let points = match parse_total(&raw.points) {
            Ok(points) => points,
            Err(error) => {
                return Err(error);
            },
        };
        let mut display_name = given.clone();
        proof {
            reveal_strlit(" ");
            assert(" "@ =~= seq![' ']);
        }
        display_name.append(" ");
        display_name.append(family.as_str());
        Ok(
            StandingRow {
                entity: Entity {
                    code: code.clone(),
                    display_name,
                    profile_url: copy_of(&driver.url),
                },
                position: position.clone(),
                points,
            },
        )
    }

    /// Validates one row of a constructor standings response.
    pub fn from_team(raw: &RawTeamStanding) -> (parsed: Result<StandingRow, Error>)
        ensures
            match parsed {
                Ok(row) => team_row_error(*raw) is None && team_row_matches(*raw, row),
                Err(error) => team_row_error(*raw) == Some(error),
            },
    {
        let (position, team) = match (&raw.position, &raw.team) {
            (Some(position), Some(team)) => (position, team),
            _ => {
                return Err(Error::MissingField);
            },
        };
        let name = match &team.name {
            Some(name) => name,
            None => {
                return Err(Error::MissingField);
            },
        };
        let points = match parse_total(&raw.points) {
            Ok(points) => points,
            Err(error) => {
                return Err(error);
            },
        };
        Ok(
            StandingRow {
                entity: Entity {
                    code: name.clone(),
                    display_name: name.clone(),
                    profile_url: copy_of(&team.url),
                },
                position: position.clone(),
                points,
            },
        )
    }
}

/// Orders a standings table and renders its position column.
pub struct StandingsRanker;

impl StandingsRanker {
    /// The rows in the order in which they are shown: the order given, since
    /// the backend assigns the positions.
    pub fn rank(rows: Vec<StandingRow>) -> (ranked: Vec<StandingRow>)
        ensures
            ranked == rows,
    {
        rows
    }

    /// The rows of a driver standings table: the rows of the response that
    /// are there, validated, in the response's order. Fails with the error
    /// of the first row that is refused.
    pub fn driver_rows(raws: &Vec<Option<RawDriverStanding>>) -> (parsed: Result<
        Vec<StandingRow>,
        Error,
    >)
        ensures
            match parsed {
                Ok(rows) => {
                    &&& first_error(present(raws@), driver_row_errors()) is None
                    &&& rows.len() == present(raws@).len()
                    &&& forall|i: int|
                        0 <= i < rows.len() ==> driver_row_matches(
                            present(raws@)[i],
                            #[trigger] rows[i],
                        )
                },
                Err(error) => first_error(present(raws@), driver_row_errors()) == Some(error),
            },
    {
        let there = present_rows(raws);
        let ghost given = present(raws@);
        let mut rows: Vec<StandingRow> = Vec::new();
        let mut at: usize = 0;
        while at < there.len()
            invariant
                at <= there.len(),
                given == present(raws@),
                given == there@.map_values(|row: &RawDriverStanding| *row),
                rows.len() == at,
                first_error(given.take(at as int), driver_row_errors()) is None,
                forall|i: int| 0 <= i < at ==> driver_row_matches(given[i], #[trigger] rows[i]),
            decreases there.len() - at,
        {
            proof {
                assert(given.take(at + 1).drop_last() =~= given.take(at as int));
                assert(given.take(at + 1).last() == *there[at as int]);
                lemma_first_error_is_kept(given, driver_row_errors(), at + 1);
            }
            let row = match StandingRow::from_driver(there[at]) {
                Ok(row) => row,
                Err(error) => {
                    return Err(error);
                },
            };
            rows.push(row);
            at += 1;
        }
        assert(given.take(at as int) =~= given);
        Ok(rows)
    }

    /// The rows of a constructor standings table: the rows of the response
    /// that are there, validated, in the response's order. Fails with the
    /// error of the first row that is refused.
    pub fn team_rows(raws: &Vec<Option<RawTeamStanding>>) -> (parsed: Result<
        Vec<StandingRow>,
        Error,
    >)
        ensures
            match parsed {
                Ok(rows) => {
                    &&& first_error(present(raws@), team_row_errors()) is None
                    &&& rows.len() == present(raws@).len()
                    &&& forall|i: int|
                        0 <= i < rows.len() ==> team_row_matches(
                            present(raws@)[i],
                            #[trigger] rows[i],
                        )
                },
                Err(error) => first_error(present(raws@), team_row_errors()) == Some(error),
            },
    {
        let there = present_rows(raws);
        let ghost given = present(raws@);
        let mut rows: Vec<StandingRow> = Vec::new();
        let mut at: usize = 0;
        while at < there.len()
            invariant
                at <= there.len(),
                given == present(raws@),
                given == there@.map_values(|row: &RawTeamStanding| *row),
                rows.len() == at,
                first_error(given.take(at as int), team_row_errors()) is None,
                forall|i: int| 0 <= i < at ==> team_row_matches(given[i], #[trigger] rows[i]),
            decreases there.len() - at,
        {
            proof {
                assert(given.take(at + 1).drop_last() =~= given.take(at as int));
                assert(given.take(at + 1).last() == *there[at as int]);
                lemma_first_error_is_kept(given, team_row_errors(), at + 1);
            }
            let row = match StandingRow::from_team(there[at]) {
                Ok(row) => row,
                Err(error) => {
                    return Err(error);
                },
            };
            rows.push(row);
            at += 1;
        }
        assert(given.take(at as int) =~= given);
        Ok(rows)
    }

    /// Maps a position text to its display token. Total: an empty or
    /// non-numeric text falls through to [`DisplayToken::Numeric`].
    pub fn render_position(position: &str) -> (token: DisplayToken)
        ensures
            token@ == position_token(position@),
    {
        if position.unicode_len() == 1 {
            let c = position.get_char(0);
            assert(position@ =~= seq![c]);
            if c == '1' {
                return DisplayToken::Gold;
            }
            if c == '2' {
                return DisplayToken::Silver;
            }
            if c == '3' {
                return DisplayToken::Bronze;
            }
            assert(seq!['1'][0] == '1' && seq!['2'][0] == '2' && seq!['3'][0] == '3');
        } else {
            assert(seq!['1'].len() == 1 && seq!['2'].len() == 1 && seq!['3'].len() == 1);
        }
        DisplayToken::Numeric(position.to_owned())
    }
}

} // verus!
