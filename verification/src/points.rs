//! Points as exact fixed-point numbers, and the decimal notation they are
//! read from.
//!
//! A score is held as a whole number of thousandths of a point, so sums are
//! exact and their order is the order of integers. A text denotes a score
//! when it is a plain non-negative decimal numeral (an optional `+`, digits,
//! an optional `.` with digits after it, at least one digit in all) whose
//! value in thousandths fits in 64 bits. Places past the third after the
//! point are finer than a score can be and are left out.

use vstd::prelude::*;
use vstd::string::{StringExecFns, StringSliceAdditionalSpecFns};

verus! {

/// How many thousandths make one point.
pub const THOUSANDTHS_PER_POINT: u64 = 1000;

const BYTE_PLUS: u8 = 43;

const BYTE_POINT: u8 = 46;

const BYTE_ZERO: u8 = 48;

const BYTE_NINE: u8 = 57;

/// Whether `c` is one of the ten ASCII digits.
pub open spec fn is_digit(c: char) -> bool {
    '0' <= c <= '9'
}

/// The number a digit stands for.
pub open spec fn digit_value(c: char) -> nat {
    (c as u32 - '0' as u32) as nat
}

/// The digit that stands for a number below ten.
#[verifier::opaque]
pub open spec fn digit_char(d: nat) -> char {
    if d == 0 {
        '0'
    } else if d == 1 {
        '1'
    } else if d == 2 {
        '2'
    } else if d == 3 {
        '3'
    } else if d == 4 {
        '4'
    } else if d == 5 {
        '5'
    } else if d == 6 {
        '6'
    } else if d == 7 {
        '7'
    } else if d == 8 {
        '8'
    } else {
        '9'
    }
}

/// The digit for a number below ten stands for that number.
pub proof fn lemma_digit_char_value(d: nat)
    requires
        d <= 9,
    ensures
        is_digit(digit_char(d)),
        digit_value(digit_char(d)) == d,
{
    reveal(digit_char);
}

/// A digit is the digit for the number it stands for.
pub proof fn lemma_digit_value_char(c: char)
    requires
        is_digit(c),
    ensures
        digit_value(c) <= 9,
        digit_char(digit_value(c)) == c,
{
    reveal(digit_char);
}

/// Whether every character of `s` is a digit.
pub open spec fn all_digits(s: Seq<char>) -> bool {
    forall|i: int| 0 <= i < s.len() ==> is_digit(#[trigger] s[i])
}

/// The number that a run of digits denotes in base ten; 0 for the empty run.
pub open spec fn digits_value(s: Seq<char>) -> nat
    decreases s.len(),
{
    if s.len() == 0 {
        0
    } else {
        digits_value(s.drop_last()) * 10 + digit_value(s.last())
    }
}

/// How many digits `s` starts with.
pub open spec fn leading_digits(s: Seq<char>) -> nat
    decreases s.len(),
{
    if s.len() > 0 && is_digit(s[0]) {
        1 + leading_digits(s.drop_first())
    } else {
        0
    }
}

/// The text without its leading `+`, if it has one.
pub open spec fn unsigned_part(text: Seq<char>) -> Seq<char> {
    if text.len() > 0 && text[0] == '+' {
        text.skip(1)
    } else {
        text
    }
}

/// The digits before the decimal point.
pub open spec fn whole_part(text: Seq<char>) -> Seq<char> {
    let body = unsigned_part(text);
    body.take(leading_digits(body) as int)
}

/// What follows the first character after the whole part; empty where the
/// whole part ends the text.
pub open spec fn fraction_part(text: Seq<char>) -> Seq<char> {
    let body = unsigned_part(text);
    let n = leading_digits(body);
    if n < body.len() {
        body.skip(n as int + 1)
    } else {
        Seq::empty()
    }
}

/// Whether `text` is a non-negative decimal numeral: an optional `+`, then
/// digits with at most one `.` among them, and at least one digit.
pub open spec fn is_decimal(text: Seq<char>) -> bool {
    let body = unsigned_part(text);
    let n = leading_digits(body);
    &&& body.len() > 0
    &&& n < body.len() ==> {
        &&& body[n as int] == '.'
        &&& all_digits(fraction_part(text))
        &&& body.len() > 1
    }
}

/// The digit at place `i` after the decimal point, 0 past the end.
pub open spec fn fraction_digit(fraction: Seq<char>, i: int) -> nat {
    if 0 <= i < fraction.len() {
        digit_value(fraction[i])
    } else {
        0
    }
}

/// The first three places after the decimal point, as thousandths.
pub open spec fn fraction_thousandths(fraction: Seq<char>) -> nat {
    fraction_digit(fraction, 0) * 100 + fraction_digit(fraction, 1) * 10 + fraction_digit(
        fraction,
        2,
    )
}

/// The value of a decimal numeral in thousandths, with the places past the
/// third after the point left out: `"0.1259"` is 125 thousandths.
pub open spec fn decimal_thousandths(text: Seq<char>) -> nat {
    digits_value(whole_part(text)) * 1000 + fraction_thousandths(fraction_part(text))
}

/// Whether `text` is the one way in which [`Points::to_text`] writes a
/// score: no sign, a whole part without needless leading zeros, and a
/// fraction only where it is not zero, of at most three places and without
/// trailing zeros.
pub open spec fn is_canonical(text: Seq<char>) -> bool {
    let whole = whole_part(text);
    let fraction = fraction_part(text);
    &&& unsigned_part(text) == text
    &&& whole.len() >= 1
    &&& whole.len() > 1 ==> whole[0] != '0'
    &&& text.len() == whole.len() || (1 <= fraction.len() <= 3 && fraction.last() != '0')
}

/// Whether `text` denotes a score that [`Points`] can hold: a non-negative
/// decimal numeral whose value in thousandths fits in 64 bits.
pub open spec fn is_points_text(text: Seq<char>) -> bool {
    &&& is_decimal(text)
    &&& decimal_thousandths(text) <= u64::MAX
}

/// A run of digits that stops at `k` is exactly the leading run.
proof fn lemma_leading_digits(s: Seq<char>, k: int)
    requires
        0 <= k <= s.len(),
        forall|j: int| 0 <= j < k ==> is_digit(#[trigger] s[j]),
        k == s.len() || !is_digit(s[k]),
    ensures
        leading_digits(s) == k,
    decreases k,
{
    if k > 0 {
        let rest = s.drop_first();
        assert forall|j: int| 0 <= j < k - 1 implies is_digit(#[trigger] rest[j]) by {
            assert(rest[j] == s[j + 1]);
        }
        lemma_leading_digits(rest, k - 1);
    }
}

/// The leading run holds digits only, and what follows it is no digit.
proof fn lemma_leading_digits_shape(s: Seq<char>)
    ensures
        leading_digits(s) <= s.len(),
        forall|j: int| 0 <= j < leading_digits(s) ==> is_digit(#[trigger] s[j]),
        leading_digits(s) < s.len() ==> !is_digit(s[leading_digits(s) as int]),
    decreases s.len(),
{
    if s.len() > 0 && is_digit(s[0]) {
        let rest = s.drop_first();
        lemma_leading_digits_shape(rest);
        assert forall|j: int| 0 <= j < leading_digits(s) implies is_digit(#[trigger] s[j]) by {
            if j > 0 {
                assert(s[j] == rest[j - 1]);
            }
        }
        if leading_digits(s) < s.len() {
            assert(s[leading_digits(s) as int] == rest[leading_digits(rest) as int]);
        }
    }
}

/// A prefix of a run of digits denotes no more than the whole run.
proof fn lemma_digits_value_prefix(s: Seq<char>, k: int)
    requires
        0 <= k <= s.len(),
    ensures
        digits_value(s.take(k)) <= digits_value(s),
    decreases s.len(),
{
    if k == s.len() {
        assert(s.take(k) =~= s);
    } else {
        assert(s.drop_last().take(k) =~= s.take(k));
        lemma_digits_value_prefix(s.drop_last(), k);
    }
}

/// A run of digits that does not start with a zero denotes a positive
/// number.
proof fn lemma_digits_value_is_positive(s: Seq<char>)
    requires
        all_digits(s),
        s.len() >= 1,
        s[0] != '0',
    ensures
        digits_value(s) >= 1,
    decreases s.len(),
{
    if s.len() == 1 {
        assert(is_digit(s[0]));
    } else {
        let front = s.drop_last();
        assert(front[0] == s[0]);
        assert forall|i: int| 0 <= i < front.len() implies is_digit(#[trigger] front[i]) by {
            assert(front[i] == s[i]);
        }
        lemma_digits_value_is_positive(front);
    }
}

/// Two runs of digits without needless leading zeros that denote the same
/// number are the same run.
proof fn lemma_digits_are_unique(s: Seq<char>, t: Seq<char>)
    requires
        all_digits(s),
        all_digits(t),
        s.len() >= 1,
        t.len() >= 1,
        s.len() > 1 ==> s[0] != '0',
        t.len() > 1 ==> t[0] != '0',
        digits_value(s) == digits_value(t),
    ensures
        s == t,
    decreases s.len(),
{
    let front_s = s.drop_last();
    let front_t = t.drop_last();
    assert(is_digit(s.last()) && is_digit(t.last()));
    assert(digit_value(s.last()) <= 9 && digit_value(t.last()) <= 9);
    assert(digits_value(front_s) == digits_value(front_t));
    assert(s.last() == t.last());
    assert forall|i: int| 0 <= i < front_s.len() implies is_digit(#[trigger] front_s[i]) by {
        assert(front_s[i] == s[i]);
    }
    assert forall|i: int| 0 <= i < front_t.len() implies is_digit(#[trigger] front_t[i]) by {
        assert(front_t[i] == t[i]);
    }
    if front_s.len() == 0 && front_t.len() == 0 {
    } else if front_s.len() == 0 {
        assert(front_t[0] == t[0]);
        lemma_digits_value_is_positive(front_t);
    } else if front_t.len() == 0 {
        assert(front_s[0] == s[0]);
        lemma_digits_value_is_positive(front_s);
    } else {
        assert(front_s[0] == s[0] && front_t[0] == t[0]);
        lemma_digits_are_unique(front_s, front_t);
    }
    assert(s =~= front_s.push(s.last()));
    assert(t =~= front_t.push(t.last()));
}

/// A canonical text of a score is its whole part, followed by a point and
/// the fraction where there is one.
proof fn lemma_canonical_shape(text: Seq<char>)
    requires
        is_points_text(text),
        is_canonical(text),
    ensures
        all_digits(whole_part(text)),
        all_digits(fraction_part(text)),
        fraction_thousandths(fraction_part(text)) <= 999,
        text == (if fraction_part(text).len() == 0 {
            whole_part(text)
        } else {
            whole_part(text) + seq!['.'] + fraction_part(text)
        }),
{
    let whole = whole_part(text);
    let fraction = fraction_part(text);
    lemma_leading_digits_shape(text);
    assert forall|i: int| 0 <= i < whole.len() implies is_digit(#[trigger] whole[i]) by {
        assert(whole[i] == text[i]);
    }
    assert forall|i: int| 0 <= i < 3 implies fraction_digit(fraction, i) <= 9 by {
        if i < fraction.len() {
            assert(is_digit(fraction[i]));
        }
    }
    if fraction.len() == 0 {
        assert(text =~= whole);
    } else {
        assert(text =~= whole + seq!['.'] + fraction);
    }
}

/// There is one canonical text for each score: two canonical texts that
/// denote the same score are the same text.
pub proof fn lemma_canonical_text_is_unique(a: Seq<char>, b: Seq<char>)
    requires
        is_points_text(a),
        is_canonical(a),
        is_points_text(b),
        is_canonical(b),
        decimal_thousandths(a) == decimal_thousandths(b),
    ensures
        a == b,
{
    lemma_canonical_shape(a);
    lemma_canonical_shape(b);
    let fa = fraction_part(a);
    let fb = fraction_part(b);
    assert(digits_value(whole_part(a)) == digits_value(whole_part(b)));
    assert(fraction_thousandths(fa) == fraction_thousandths(fb));
    lemma_digits_are_unique(whole_part(a), whole_part(b));
    assert forall|i: int| 0 <= i < 3 implies fraction_digit(fa, i) <= 9 && fraction_digit(fb, i)
        <= 9 by {
        if i < fa.len() {
            assert(is_digit(fa[i]));
        }
        if i < fb.len() {
            assert(is_digit(fb[i]));
        }
    }
    assert(fraction_digit(fa, 0) == fraction_digit(fb, 0) && fraction_digit(fa, 1)
        == fraction_digit(fb, 1) && fraction_digit(fa, 2) == fraction_digit(fb, 2));
    if fa.len() > 0 {
        assert(is_digit(fa.last()) && digit_value(fa.last()) >= 1);
        assert(fraction_digit(fa, fa.len() - 1) >= 1);
    }
    if fb.len() > 0 {
        assert(is_digit(fb.last()) && digit_value(fb.last()) >= 1);
        assert(fraction_digit(fb, fb.len() - 1) >= 1);
    }
    assert(fa.len() == fb.len());
    assert forall|i: int| 0 <= i < fa.len() implies fa[i] == fb[i] by {
        assert(is_digit(fa[i]) && is_digit(fb[i]));
        assert(fraction_digit(fa, i) == fraction_digit(fb, i));
    }
    assert(fa =~= fb);
}

/// A decimal numeral is made of ASCII characters.
proof fn lemma_decimal_is_ascii(text: Seq<char>)
    requires
        is_decimal(text),
    ensures
        vstd::utf8::is_ascii_chars(text),
{
    let body = unsigned_part(text);
    let n = leading_digits(body) as int;
    let shift = text.len() - body.len();
    lemma_leading_digits_shape(body);
    assert forall|i: int| 0 <= i < text.len() implies '\0' <= #[trigger] text[i] <= '\u{7f}' by {
        if i >= shift {
            let j = i - shift;
            assert(text[i] == body[j]);
            if j < n {
                assert(is_digit(body[j]));
            } else if j > n {
                assert(fraction_part(text)[j - n - 1] == body[j]);
                assert(is_digit(fraction_part(text)[j - n - 1]));
            }
        }
    }
}

/// An ASCII character is told from its byte: the digits, the point and the
/// plus sign have the bytes that the parser looks for, and no others have.
proof fn lemma_ascii_bytes(text: Seq<char>)
    requires
        vstd::utf8::is_ascii_chars(text),
    ensures
        forall|i: int|
            0 <= i < text.len() ==> {
                let c = #[trigger] text[i];
                let b = c as u8;
                &&& (b == BYTE_PLUS <==> c == '+')
                &&& (b == BYTE_POINT <==> c == '.')
                &&& (BYTE_ZERO <= b <= BYTE_NINE <==> is_digit(c))
                &&& (is_digit(c) ==> digit_value(c) == b - BYTE_ZERO)
            },
{
}

/// The one-character text for a number below ten.
pub(crate) fn digit_text(d: u8) -> (text: &'static str)
    requires
        d <= 9,
    ensures
        text@ == seq![digit_char(d as nat)],
        is_digit(digit_char(d as nat)),
        digit_value(digit_char(d as nat)) == d,
{
    proof {
        reveal(digit_char);
        reveal_strlit("0");
        reveal_strlit("1");
        reveal_strlit("2");
        reveal_strlit("3");
        reveal_strlit("4");
        reveal_strlit("5");
        reveal_strlit("6");
        reveal_strlit("7");
        reveal_strlit("8");
        reveal_strlit("9");
    }
    let text = if d == 0 {
        "0"
    } else if d == 1 {
        "1"
    } else if d == 2 {
        "2"
    } else if d == 3 {
        "3"
    } else if d == 4 {
        "4"
    } else if d == 5 {
        "5"
    } else if d == 6 {
        "6"
    } else if d == 7 {
        "7"
    } else if d == 8 {
        "8"
    } else {
        "9"
    };
    assert(text@ =~= seq![digit_char(d as nat)]);
    text
}

/// Where the run of digits that starts at `from` ends.
fn digits_end(text: &str, from: usize) -> (end: usize)
    requires
        text.is_ascii(),
        from <= text@.len(),
    ensures
        from <= end <= text@.len(),
        forall|j: int| from <= j < end ==> is_digit(#[trigger] text@[j]),
        end == text@.len() || !is_digit(text@[end as int]),
{
    proof {
        vstd::string::is_ascii_spec_bytes(text);
        lemma_ascii_bytes(text@);
    }
    let bytes = text.as_bytes();
    let n = bytes.len();
    assert(bytes@ =~= Seq::new(text@.len(), |i: int| text@[i] as u8));
    let mut end = from;
    while end < n && BYTE_ZERO <= bytes[end] && bytes[end] <= BYTE_NINE
        invariant
            n == text@.len(),
            bytes@.len() == n,
            forall|i: int| 0 <= i < n ==> bytes@[i] == (#[trigger] text@[i]) as u8,
            from <= end <= n,
            forall|j: int| from <= j < end ==> is_digit(#[trigger] text@[j]),
            forall|i: int|
                0 <= i < text@.len() ==> (BYTE_ZERO <= (#[trigger] text@[i]) as u8 <= BYTE_NINE
                    <==> is_digit(text@[i])),
        decreases n - end,
    {
        end += 1;
    }
    end
}

/// Reads the places after the decimal point, which start at `first`: the
/// first three as thousandths, the others only to see that they are digits.
fn read_fraction(text: &str, first: usize) -> (thousandths: Option<u64>)
    requires
        text.is_ascii(),
        first <= text@.len(),
    ensures
        thousandths is Some <==> all_digits(text@.skip(first as int)),
        thousandths matches Some(value) ==> value == fraction_thousandths(
            text@.skip(first as int),
        ) && value <= 999,
{
    proof {
        vstd::string::is_ascii_spec_bytes(text);
        lemma_ascii_bytes(text@);
    }
    let bytes = text.as_bytes();
    let n = bytes.len();
    assert(bytes@ =~= Seq::new(text@.len(), |i: int| text@[i] as u8));
    let ghost places = text@.skip(first as int);
    let mut at = first;
    let mut d0: u64 = 0;
    let mut d1: u64 = 0;
    let mut d2: u64 = 0;
    while at < n
        invariant
            n == text@.len(),
            bytes@.len() == n,
            forall|i: int| 0 <= i < n ==> bytes@[i] == (#[trigger] text@[i]) as u8,
            first <= at <= n,
            places == text@.skip(first as int),
            forall|i: int|
                0 <= i < text@.len() ==> {
                    let c = #[trigger] text@[i];
                    &&& (BYTE_ZERO <= c as u8 <= BYTE_NINE <==> is_digit(c))
                    &&& (is_digit(c) ==> digit_value(c) == c as u8 - BYTE_ZERO)
                },
            forall|j: int| 0 <= j < at - first ==> is_digit(#[trigger] places[j]),
            d0 == (if at - first > 0 {
                fraction_digit(places, 0)
            } else {
                0
            }),
            d1 == (if at - first > 1 {
                fraction_digit(places, 1)
            } else {
                0
            }),
            d2 == (if at - first > 2 {
                fraction_digit(places, 2)
            } else {
                0
            }),
            d0 <= 9,
            d1 <= 9,
            d2 <= 9,
        decreases n - at,
    {
        let b = bytes[at];
        assert(places[at - first] == text@[at as int]);
        if b < BYTE_ZERO || b > BYTE_NINE {
            assert(!is_digit(places[at - first]));
            return None;
        }
        let d: u64 = (b - BYTE_ZERO) as u64;
        let place = at - first;
        if place == 0 {
            d0 = d;
        } else if place == 1 {
            d1 = d;
        } else if place == 2 {
            d2 = d;
        }
        at += 1;
    }
    Some(d0 * 100 + d1 * 10 + d2)
}

/// Reads the run of digits from `start` to `end` as a number, where it fits.
fn read_whole(text: &str, start: usize, end: usize) -> (value: Option<u64>)
    requires
        text.is_ascii(),
        start <= end <= text@.len(),
        forall|j: int| start <= j < end ==> is_digit(#[trigger] text@[j]),
    ensures
        value is Some <==> digits_value(text@.subrange(start as int, end as int)) <= u64::MAX,
        value matches Some(v) ==> v == digits_value(text@.subrange(start as int, end as int)),
{
    proof {
        vstd::string::is_ascii_spec_bytes(text);
        lemma_ascii_bytes(text@);
    }
    let bytes = text.as_bytes();
    assert(bytes@ =~= Seq::new(text@.len(), |i: int| text@[i] as u8));
    let ghost run = text@.subrange(start as int, end as int);
    let mut value: u64 = 0;
    let mut at = start;
    assert(run.take(0) =~= Seq::<char>::empty());
    while at < end
        invariant
            start <= at <= end <= text@.len(),
            bytes@.len() == text@.len(),
            forall|i: int| 0 <= i < text@.len() ==> bytes@[i] == (#[trigger] text@[i]) as u8,
            run == text@.subrange(start as int, end as int),
            forall|j: int| start <= j < end ==> is_digit(#[trigger] text@[j]),
            forall|i: int|
                0 <= i < text@.len() ==> {
                    let c = #[trigger] text@[i];
                    is_digit(c) ==> digit_value(c) == c as u8 - BYTE_ZERO && BYTE_ZERO <= c as u8
                        <= BYTE_NINE
                },
            value == digits_value(run.take(at - start)),
        decreases end - at,
    {
        let b = bytes[at];
        assert(is_digit(text@[at as int]));
        let d: u64 = (b - BYTE_ZERO) as u64;
        proof {
            let next = run.take(at - start + 1);
            assert(next.drop_last() =~= run.take(at - start));
            assert(next.last() == text@[at as int]);
            assert(digits_value(next) == value * 10 + d);
            lemma_digits_value_prefix(run, at - start + 1);
        }
        let shifted = match value.checked_mul(10) {
            Some(shifted) => shifted,
            None => {
                return None;
            },
        };
        value = match shifted.checked_add(d) {
            Some(sum) => sum,
            None => {
                return None;
            },
        };
        at += 1;
    }
    assert(run.take(end - start) =~= run);
    Some(value)
}

/// Writes a number in base ten, without leading zeros.
fn number_text(n: u64) -> (text: String)
    ensures
        all_digits(text@),
        text@.len() >= 1,
        text@.len() > 1 ==> text@[0] != '0',
        digits_value(text@) == n,
    decreases n,
{
    if n < 10 {
        let digit = digit_text(n as u8);
        let text = digit.to_owned();
        assert(text@.drop_last() =~= Seq::<char>::empty());
        assert(digits_value(Seq::<char>::empty()) == 0);
        text
    } else {
        let mut text = number_text(n / 10);
        let ghost front = text@;
        let digit = digit_text((n % 10) as u8);
        text.append(digit);
        proof {
            assert(text@.drop_last() =~= front);
            assert(front.len() == 1 ==> front[0] != '0') by {
                if front.len() == 1 {
                    assert(front.drop_last() =~= Seq::<char>::empty());
                    assert(digits_value(Seq::<char>::empty()) == 0);
                    assert(digits_value(front) == digit_value(front[0]));
                }
            }
            assert(text@[0] == front[0]);
        }
        text
    }
}

/// A score in one round: an exact, non-negative number of thousandths of a
/// point.
#[derive(Debug, Clone, Copy, PartialEq, Eq, Structural, PartialOrd, Ord, Hash)]
pub struct Points {
    thousandths: u64,
}

impl View for Points {
    type V = nat;

    /// The score in thousandths of a point.
    closed spec fn view(&self) -> nat {
        self.thousandths as nat
    }
}

impl Points {
    /// The score of `thousandths` thousandths of a point.
    pub fn from_thousandths(thousandths: u64) -> (points: Points)
        ensures
            points@ == thousandths,
    {
        Points { thousandths }
    }

    /// The score in thousandths of a point.
    pub fn thousandths(&self) -> (thousandths: u64)
        ensures
            thousandths == self@,
    {
        self.thousandths
    }

    /// Two scores with the same value are the same score.
    pub proof fn lemma_view_is_injective(a: Points, b: Points)
        ensures
            a@ == b@ <==> a == b,
    {
    }

    /// Writes the score in decimal notation, in the one canonical way.
    /// Reading the text back gives the score again.
    pub fn to_text(&self) -> (text: String)
        ensures
            is_points_text(text@),
            is_canonical(text@),
            decimal_thousandths(text@) == self@,
    {
        let whole = self.thousandths / THOUSANDTHS_PER_POINT;
        let fraction = self.thousandths % THOUSANDTHS_PER_POINT;
        let mut text = number_text(whole);
        let ghost front = text@;
        let ghost places: Seq<char> = Seq::empty();
        if fraction != 0 {
            let d0 = (fraction / 100) as u8;
            let d1 = (fraction / 10 % 10) as u8;
            let d2 = (fraction % 10) as u8;
            proof {
                reveal_strlit(".");
                lemma_digit_char_value(0);
            }
            text.append(".");
            text.append(digit_text(d0));
            proof {
                places = seq![digit_char(d0 as nat)];
            }
            if d1 != 0 || d2 != 0 {
                text.append(digit_text(d1));
                proof {
                    places = places.push(digit_char(d1 as nat));
                }
            }
            if d2 != 0 {
                text.append(digit_text(d2));
                proof {
                    places = places.push(digit_char(d2 as nat));
                }
            }
            assert(text@ =~= front + seq!['.'] + places);
            assert(fraction_thousandths(places) == fraction);
            assert(places.last() != '0');
        }
        proof {
            let k = front.len() as int;
            assert(is_digit(text@[0]));
            assert(unsigned_part(text@) == text@);
            assert forall|j: int| 0 <= j < k implies is_digit(#[trigger] text@[j]) by {
                assert(text@[j] == front[j]);
            }
            lemma_leading_digits(text@, k);
            assert(whole_part(text@) =~= front);
            assert(fraction_part(text@) =~= places);
        }
        text
    }

    /// Reads a score from decimal notation. Succeeds on every non-negative
    /// decimal numeral whose value in thousandths fits in 64 bits, and on
    /// nothing else. The score is the numeral's value with the places past
    /// the third after the point left out.
    pub fn parse(text: &str) -> (parsed: Option<Points>)
        ensures
            parsed is Some <==> is_points_text(text@),
            parsed matches Some(points) ==> points@ == decimal_thousandths(text@),
    {
        if !text.is_ascii() {
            proof {
                if is_decimal(text@) {
                    lemma_decimal_is_ascii(text@);
                }
            }
            return None;
        }
        proof {
            vstd::string::is_ascii_spec_bytes(text);
            lemma_ascii_bytes(text@);
        }
        let bytes = text.as_bytes();
        let n = bytes.len();
        assert(bytes@ =~= Seq::new(text@.len(), |i: int| text@[i] as u8));
        let mut start: usize = 0;
        if n > 0 && bytes[0] == BYTE_PLUS {
            start = 1;
        }
        let ghost body = unsigned_part(text@);
        assert(body =~= text@.skip(start as int));
        let point = digits_end(text, start);
        proof {
            assert forall|j: int| 0 <= j < point - start implies is_digit(#[trigger] body[j]) by {
                assert(is_digit(text@[j + start]));
            }
            lemma_leading_digits(body, point - start);
            assert(whole_part(text@) =~= text@.subrange(start as int, point as int));
        }
        if n == start {
            return None;
        }
        let mut fraction: u64 = 0;
        if point < n {
            assert(fraction_part(text@) =~= text@.skip(point + 1));
            if bytes[point] != BYTE_POINT {
                return None;
            }
            if n - start == 1 {
                return None;
            }
            fraction = match read_fraction(text, point + 1) {
                Some(fraction) => fraction,
                None => {
                    return None;
                },
            };
        }
        assert(is_decimal(text@));
        let whole = match read_whole(text, start, point) {
            Some(whole) => whole,
            None => {
                return None;
            },
        };
        let scaled = match whole.checked_mul(THOUSANDTHS_PER_POINT) {
            Some(scaled) => scaled,
            None => {
                return None;
            },
        };
        match scaled.checked_add(fraction) {
            Some(thousandths) => Some(Points { thousandths }),
            None => None,
        }
    }
}

} // verus!
