//! Which season a request is for.

use vstd::prelude::*;
use vstd::string::{StringExecFns, StringSliceAdditionalSpecFns};
use crate::points::{
    all_digits,
    digit_char,
    digit_text,
    digit_value,
    is_digit,
    lemma_digit_char_value,
    lemma_digit_value_char,
};

verus! {

/// The last year that four digits can write.
pub const LAST_YEAR: u16 = 9999;

/// A season as a mathematical value.
pub ghost enum SeasonView {
    /// The season under way.
    Current,
    /// The season of a year from 0 to 9999.
    Year(nat),
}

/// The token for the season under way.
pub open spec fn current_text() -> Seq<char> {
    seq!['c', 'u', 'r', 'r', 'e', 'n', 't']
}

/// Whether `text` names a season: the token `current`, or exactly four
/// digits.
pub open spec fn is_season_text(text: Seq<char>) -> bool {
    text == current_text() || (text.len() == 4 && all_digits(text))
}

/// The number that four digits write.
pub open spec fn year_of(text: Seq<char>) -> nat {
    digit_value(text[0]) * 1000 + digit_value(text[1]) * 100 + digit_value(text[2]) * 10
        + digit_value(text[3])
}

/// The season that a season text names.
pub open spec fn season_of(text: Seq<char>) -> SeasonView {
    if text == current_text() {
        SeasonView::Current
    } else {
        SeasonView::Year(year_of(text))
    }
}

/// The text that names a season: the token, or the year in four digits with
/// leading zeros.
pub open spec fn season_text(season: SeasonView) -> Seq<char> {
    match season {
        SeasonView::Current => current_text(),
        SeasonView::Year(year) => seq![
            digit_char(year / 1000),
            digit_char(year / 100 % 10),
            digit_char(year / 10 % 10),
            digit_char(year % 10),
        ],
    }
}

/// Whether a season value is one that a text can name.
pub open spec fn is_season(season: SeasonView) -> bool {
    season matches SeasonView::Year(year) ==> year <= LAST_YEAR
}

/// Writing a season and reading the text back gives the season again.
pub proof fn lemma_season_text_reads_back(season: SeasonView)
    requires
        is_season(season),
    ensures
        is_season_text(season_text(season)),
        season_of(season_text(season)) == season,
{
    match season {
        SeasonView::Current => {},
        SeasonView::Year(year) => {
            let text = season_text(season);
            let d0 = year / 1000;
            let d1 = year / 100 % 10;
            let d2 = year / 10 % 10;
            let d3 = year % 10;
            lemma_digit_char_value(d0);
            lemma_digit_char_value(d1);
            lemma_digit_char_value(d2);
            lemma_digit_char_value(d3);
            assert(text[0] == digit_char(d0) && text[1] == digit_char(d1) && text[2] == digit_char(
                d2,
            ) && text[3] == digit_char(d3));
            assert(text != current_text()) by {
                assert(current_text()[0] == 'c');
                assert(is_digit(text[0]));
            }
            assert(year == d0 * 1000 + d1 * 100 + d2 * 10 + d3);
        },
    }
}

/// Reading a season text and writing the season back gives the text again.
pub proof fn lemma_season_text_writes_back(text: Seq<char>)
    requires
        is_season_text(text),
    ensures
        is_season(season_of(text)),
        season_text(season_of(text)) == text,
{
    if text != current_text() {
        let v0 = digit_value(text[0]);
        let v1 = digit_value(text[1]);
        let v2 = digit_value(text[2]);
        let v3 = digit_value(text[3]);
        lemma_digit_value_char(text[0]);
        lemma_digit_value_char(text[1]);
        lemma_digit_value_char(text[2]);
        lemma_digit_value_char(text[3]);
        let year = year_of(text);
        assert(year == v0 * 1000 + v1 * 100 + v2 * 10 + v3);
        assert(year / 1000 == v0 && year / 100 % 10 == v1 && year / 10 % 10 == v2 && year % 10
            == v3);
        assert(season_text(season_of(text)) =~= text);
    }
}

/// Which season's data to ask for: the one under way, or that of a year.
#[derive(Debug, Clone, Copy, PartialEq, Eq, Structural, Hash)]
pub struct SeasonYear {
    year: Option<u16>,
}

impl View for SeasonYear {
    type V = SeasonView;

    closed spec fn view(&self) -> SeasonView {
        match self.year {
            None => SeasonView::Current,
            Some(year) => SeasonView::Year(year as nat),
        }
    }
}

impl SeasonYear {
    #[verifier::type_invariant]
    spec fn year_has_four_digits(&self) -> bool {
        self.year matches Some(year) ==> year <= LAST_YEAR
    }

    /// The season under way.
    pub fn current() -> (season: SeasonYear)
        ensures
            season@ == SeasonView::Current,
    {
        SeasonYear { year: None }
    }

    /// The season of `year`, where four digits can write it.
    pub fn of_year(year: u16) -> (season: Option<SeasonYear>)
        ensures
            season is Some <==> year <= LAST_YEAR,
            season matches Some(season) ==> season@ == SeasonView::Year(year as nat),
    {
        if year <= LAST_YEAR {
            Some(SeasonYear { year: Some(year) })
        } else {
            None
        }
    }

    /// The year, or `None` for the season under way.
    pub fn year(&self) -> (year: Option<u16>)
        ensures
            is_season(self@),
            match year {
                None => self@ == SeasonView::Current,
                Some(year) => self@ == SeasonView::Year(year as nat),
            },
    {
        proof {
            use_type_invariant(self);
        }
        self.year
    }

    /// Two seasons with the same value are the same season.
    pub proof fn lemma_view_is_injective(a: SeasonYear, b: SeasonYear)
        ensures
            a@ == b@ <==> a == b,
    {
    }

    /// Reads a season from the text that names it. Succeeds exactly on the
    /// season texts.
    pub fn parse(text: &str) -> (parsed: Option<SeasonYear>)
        ensures
            parsed is Some <==> is_season_text(text@),
            parsed matches Some(season) ==> season@ == season_of(text@),
    {
        let given = text.to_owned();
        let token = "current".to_owned();
        proof {
            reveal_strlit("current");
            assert("current"@ =~= current_text());
        }
        if given == token {
            return Some(SeasonYear { year: None });
        }
        if !text.is_ascii() {
            assert(!all_digits(text@));
            return None;
        }
        proof {
            vstd::string::is_ascii_spec_bytes(text);
        }
        let bytes = text.as_bytes();
        assert(bytes@ =~= Seq::new(text@.len(), |i: int| text@[i] as u8));
        if bytes.len() != 4 {
            return None;
        }
        let mut year: u16 = 0;
        let mut at: usize = 0;
        let mut d: [u16; 4] = [0, 0, 0, 0];
        while at < 4
            invariant
                at <= 4,
                bytes@.len() == 4,
                text@.len() == 4,
                vstd::utf8::is_ascii_chars(text@),
                forall|i: int| 0 <= i < 4 ==> bytes@[i] == (#[trigger] text@[i]) as u8,
                forall|i: int|
                    0 <= i < at ==> is_digit(#[trigger] text@[i]) && d[i] == digit_value(text@[i])
                        && d[i] <= 9,
            decreases 4 - at,
        {
            let b = bytes[at];
            assert(bytes@[at as int] == text@[at as int] as u8);
            if b < 48 || b > 57 {
                assert(!is_digit(text@[at as int]));
                return None;
            }
            d[at] = (b - 48) as u16;
            at += 1;
        }
        year = d[0] * 1000 + d[1] * 100 + d[2] * 10 + d[3];
        assert(text@ != current_text());
        Some(SeasonYear { year: Some(year) })
    }

    /// The text that names the season, as a request carries it.
    pub fn text(&self) -> (text: String)
        ensures
            text@ == season_text(self@),
    {
        proof {
            use_type_invariant(self);
        }
        match self.year {
            None => {
                proof {
                    reveal_strlit("current");
                    assert("current"@ =~= current_text());
                }
                "current".to_owned()
            },
            Some(year) => {
                let mut text = String::new();
                text.append(digit_text((year / 1000) as u8));
                text.append(digit_text((year / 100 % 10) as u8));
                text.append(digit_text((year / 10 % 10) as u8));
                text.append(digit_text((year % 10) as u8));
                assert(text@ =~= season_text(self@));
                text
            },
        }
    }
}

} // verus!
