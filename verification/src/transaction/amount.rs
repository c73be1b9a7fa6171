//! Monetary amounts with four decimal digits, held exactly.
use std::cmp::Ordering;

use vstd::prelude::*;
use vstd::string::*;

use crate::text::{
    all_digits, chars_of, decimal, decimal_digits, decimal_value, digits_end, is_digit,
    leading_digits, lemma_decimal_digits, lemma_decimal_value_bound, lemma_leading_digits,
    lemma_leading_digits_of_run, lemma_padded_digits, padded_digits, power_of_ten, push_decimal,
    push_padded,
};

verus! {

/// How many units make one whole: an amount counts ten-thousandths.
pub const UNITS_PER_WHOLE: i64 = 10_000;

/// How many decimal digits follow the point in the text of an amount.
pub const FRACTION_DIGITS: usize = 4;

/// A signed amount of money, counted in ten-thousandths of the currency unit.
///
/// Two amounts are equal exactly when they hold the same number of units, so
/// no tolerance is needed when comparing them.
#[derive(Clone, Copy, Debug, PartialEq, Eq, Structural)]
pub struct Amount {
    units: i64,
}

impl View for Amount {
    type V = int;

    /// The amount as a number of ten-thousandths.
    closed spec fn view(&self) -> int {
        self.units as int
    }
}

impl Amount {
    /// Whether `units` ten-thousandths can be held in an `Amount`.
    pub open spec fn representable(units: int) -> bool {
        i64::MIN <= units <= i64::MAX
    }

    /// The amount of `units` ten-thousandths, for `units` that can be held.
    pub closed spec fn of(units: int) -> Amount {
        Amount { units: units as i64 }
    }

    /// [`Amount::of`] makes the amount that has the units asked for.
    pub proof fn lemma_of(units: int)
        requires
            Amount::representable(units),
        ensures
            Amount::of(units)@ == units,
    {
    }

    /// An amount is the amount of its units.
    pub proof fn lemma_of_view(self)
        ensures
            Amount::of(self@) == self,
    {
    }

    /// The units of every amount can be held.
    pub proof fn lemma_view(self)
        ensures
            Amount::representable(self@),
    {
    }

    /// Two amounts with the same view are the same amount.
    pub proof fn lemma_view_injective(a: Amount, b: Amount)
        ensures
            (a@ == b@) == (a == b),
    {
    }

    /// The amount of `units` ten-thousandths.
    pub fn new(units: i64) -> (amount: Amount)
        ensures
            amount@ == units,
            amount == Amount::of(units as int),
    {
        Amount { units }
    }

    /// The amount of nothing.
    pub fn zero() -> (amount: Amount)
        ensures
            amount@ == 0,
    {
        Amount { units: 0 }
    }

    /// The number of ten-thousandths this amount holds.
    pub fn units(&self) -> (units: i64)
        ensures
            units == self@,
    {
        self.units
    }

    /// Whether the amount is below zero.
    pub fn is_negative(&self) -> (negative: bool)
        ensures
            negative == (self@ < 0),
    {
        self.units < 0
    }

    /// The sum of two amounts, or `None` when it cannot be represented.
    pub fn checked_add(self, rhs: Amount) -> (sum: Option<Amount>)
        ensures
            match sum {
                Some(s) => s@ == self@ + rhs@,
                None => !Amount::representable(self@ + rhs@),
            },
    {
        match self.units.checked_add(rhs.units) {
            Some(units) => Some(Amount { units }),
            None => None,
        }
    }

    /// The difference of two amounts, or `None` when it cannot be represented.
    pub fn checked_sub(self, rhs: Amount) -> (difference: Option<Amount>)
        ensures
            match difference {
                Some(d) => d@ == self@ - rhs@,
                None => !Amount::representable(self@ - rhs@),
            },
    {
        match self.units.checked_sub(rhs.units) {
            Some(units) => Some(Amount { units }),
            None => None,
        }
    }
}

impl PartialOrd for Amount {
    /// Amounts are ordered by the number of units they hold.
    fn partial_cmp(&self, other: &Self) -> (order: Option<Ordering>) {
        if self.units < other.units {
            Some(Ordering::Less)
        } else if self.units == other.units {
            Some(Ordering::Equal)
        } else {
            Some(Ordering::Greater)
        }
    }
}

impl vstd::std_specs::cmp::PartialOrdSpecImpl for Amount {
    open spec fn obeys_partial_cmp_spec() -> bool {
        true
    }

    open spec fn partial_cmp_spec(&self, other: &Self) -> Option<Ordering> {
        if self@ < other@ {
            Some(Ordering::Less)
        } else if self@ == other@ {
            Some(Ordering::Equal)
        } else {
            Some(Ordering::Greater)
        }
    }
}

/// Why a text is not an amount.
#[derive(Clone, Copy, Debug, PartialEq, Eq, Structural)]
pub enum AmountError {
    /// The text is not a decimal number: an optional sign, digits, and
    /// optionally a point and more digits, with a digit somewhere.
    Malformed,
    /// The text has more than four digits after the point.
    TooPrecise,
    /// The number is too large or too small to be held.
    OutOfRange,
}

impl Amount {
    /// The text of the amount of `units` ten-thousandths: a minus sign if it
    /// is below zero, the whole part, a point, and four digits.
    pub open spec fn text_of(units: int) -> Seq<char> {
        let magnitude = (if units < 0 {
            -units
        } else {
            units
        }) as nat;
        let sign = if units < 0 {
            seq!['-']
        } else {
            Seq::empty()
        };
        sign + decimal_digits(magnitude / 10_000) + seq!['.'] + padded_digits(magnitude % 10_000, 4)
    }

    /// The number of ten-thousandths that `text` stands for, or why it
    /// stands for none. An amount is written as an optional sign, the digits
    /// of the whole part, and optionally a point and up to four more digits;
    /// either run of digits may be empty, but not both.
    pub open spec fn units_of(text: Seq<char>) -> Result<int, AmountError> {
        let signed = text.len() > 0 && (text[0] == '-' || text[0] == '+');
        let negative = text.len() > 0 && text[0] == '-';
        let number = if signed {
            text.drop_first()
        } else {
            text
        };
        let whole = number.take(leading_digits(number) as int);
        let rest = number.skip(leading_digits(number) as int);
        let fraction = if rest.len() > 0 {
            rest.drop_first()
        } else {
            rest
        };
        let magnitude = decimal_value(whole) * 10_000 + decimal_value(fraction) * power_of_ten(
            (4 - fraction.len()) as nat,
        );
        let units = if negative {
            -magnitude
        } else {
            magnitude as int
        };
        if rest.len() > 0 && rest[0] != '.' {
            Err(AmountError::Malformed)
        } else if !all_digits(fraction) {
            Err(AmountError::Malformed)
        } else if whole.len() + fraction.len() == 0 {
            Err(AmountError::Malformed)
        } else if fraction.len() > 4 {
            Err(AmountError::TooPrecise)
        } else if !Amount::representable(units) {
            Err(AmountError::OutOfRange)
        } else {
            Ok(units)
        }
    }

    /// What is written can be read back: the text of an amount stands for
    /// that amount.
    pub proof fn lemma_text_reads_back(units: int)
        requires
            Amount::representable(units),
        ensures
            Amount::units_of(Amount::text_of(units)) == Ok::<int, AmountError>(units),
    {
        let magnitude = (if units < 0 {
            -units
        } else {
            units
        }) as nat;
        let whole = decimal_digits(magnitude / 10_000);
        let fraction = padded_digits(magnitude % 10_000, 4);
        let number = whole + seq!['.'] + fraction;
        let text = Amount::text_of(units);
        assert(power_of_ten(4) == 10_000) by {
            reveal_with_fuel(power_of_ten, 5);
        }
        lemma_decimal_digits(magnitude / 10_000);
        lemma_padded_digits(magnitude % 10_000, 4);
        lemma_leading_digits_of_run(whole, seq!['.'] + fraction);
        assert(number =~= whole + (seq!['.'] + fraction));
        // The sign, if there is one, is the minus sign; without it the text
        // starts with a digit.
        assert(is_digit(whole[0]));
        let signed = text.len() > 0 && (text[0] == '-' || text[0] == '+');
        let read = if signed {
            text.drop_first()
        } else {
            text
        };
        assert(signed == (units < 0) && read == number) by {
            if units < 0 {
                assert(text =~= seq!['-'] + number);
                assert(text.drop_first() =~= number);
            } else {
                assert(text =~= number);
                assert(text[0] == whole[0]);
            }
        }
        // The whole part ends at the point, and the four digits follow it.
        let rest = read.skip(leading_digits(read) as int);
        assert(read.take(leading_digits(read) as int) =~= whole);
        assert(rest =~= seq!['.'] + fraction);
        assert(rest[0] == '.');
        assert(rest.drop_first() =~= fraction);
        assert(power_of_ten(0) == 1);
        assert(decimal_value(whole) * 10_000 + decimal_value(fraction) * power_of_ten(0)
            == magnitude);
    }

    /// The amount as text with four digits after the point, such as
    /// `-12.5000`.
    pub fn to_string(&self) -> (text: String)
        ensures
            text@ == Amount::text_of(self@),
    {
        let negative = self.units < 0;
        let magnitude: u64 = if negative {
            (-(self.units as i128)) as u64
        } else {
            self.units as u64
        };
        let mut text = String::new();
        if negative {
            proof {
                reveal_strlit("-");
            }
            text.append("-");
            assert(text@ =~= seq!['-']);
        }
        push_decimal(&mut text, magnitude / 10_000);
        proof {
            reveal_strlit(".");
        }
        text.append(".");
        push_padded(&mut text, magnitude % 10_000, FRACTION_DIGITS);
        assert(text@ =~= Amount::text_of(self@)) by {
            assert("."@ =~= seq!['.']);
        }
        text
    }

    /// Reads an amount from text such as `12.5`, `-3` or `.25`.
    pub fn parse(text: &str) -> (amount: Result<Amount, AmountError>)
        ensures
            match Amount::units_of(text@) {
                Ok(units) => amount matches Ok(amount) && amount@ == units,
                Err(error) => amount == Err::<Amount, AmountError>(error),
            },
    {
        let chars = chars_of(text);
        assert(chars@.subrange(0, chars@.len() as int) =~= text@);
        Amount::read(&chars, 0, chars.len())
    }

    /// Reads an amount from the characters of `chars` between `from` and
    /// `to`.
    pub fn read(chars: &Vec<char>, from: usize, to: usize) -> (amount: Result<Amount, AmountError>)
        requires
            from <= to <= chars@.len(),
        ensures
            match Amount::units_of(chars@.subrange(from as int, to as int)) {
                Ok(units) => amount matches Ok(amount) && amount@ == units,
                Err(error) => amount == Err::<Amount, AmountError>(error),
            },
    {
        let n = to;
        let ghost text = chars@.subrange(from as int, to as int);
        let negative = n > from && chars[from] == '-';
        let signed = n > from && (chars[from] == '-' || chars[from] == '+');
        let start: usize = if signed {
            from + 1
        } else {
            from
        };
        let ghost number = chars@.subrange(start as int, n as int);
        assert(number =~= if signed {
            text.drop_first()
        } else {
            text
        });
        let point = digits_end(&chars, start, n);
        let ghost whole = number.take(leading_digits(number) as int);
        let ghost rest = number.skip(leading_digits(number) as int);
        assert(whole =~= chars@.subrange(start as int, point as int));
        assert(rest =~= chars@.subrange(point as int, n as int));
        proof {
            lemma_leading_digits(number);
        }
        let after: usize = if point < n {
            if chars[point] != '.' {
                return Err(AmountError::Malformed);
            }
            point + 1
        } else {
            point
        };
        let ghost fraction = chars@.subrange(after as int, n as int);
        assert(fraction =~= if rest.len() > 0 {
            rest.drop_first()
        } else {
            rest
        });
        let fraction_end = digits_end(&chars, after, n);
        proof {
            lemma_leading_digits(fraction);
        }
        if fraction_end < n {
            return Err(AmountError::Malformed);
        }
        if (point - start) + (n - after) == 0 {
            return Err(AmountError::Malformed);
        }
        if n - after > FRACTION_DIGITS {
            return Err(AmountError::TooPrecise);
        }
        let low = fraction_units(&chars, after, n);
        let high: u64 = match decimal(&chars, start, point, 1_000_000_000_000_000) {
            Some(high) => high,
            None => {
                return Err(AmountError::OutOfRange);
            },
        };
        let magnitude: i128 = high as i128 * 10_000 + low as i128;
        let units: i128 = if negative {
            -magnitude
        } else {
            magnitude
        };
        if i64::MIN as i128 <= units && units <= i64::MAX as i128 {
            Ok(Amount { units: units as i64 })
        } else {
            Err(AmountError::OutOfRange)
        }
    }
}

/// The number of ten-thousandths that the digits after the point stand for:
/// the digits of `text` between `from` and `to`, of which there are four at
/// most.
fn fraction_units(text: &Vec<char>, from: usize, to: usize) -> (units: u64)
    requires
        from <= to <= text@.len(),
        to - from <= 4,
        all_digits(text@.subrange(from as int, to as int)),
    ensures
        units == decimal_value(text@.subrange(from as int, to as int)) * power_of_ten(
            (4 - (to - from)) as nat,
        ),
        units < 10_000,
{
    let ghost digits = text@.subrange(from as int, to as int);
    proof {
        lemma_decimal_value_bound(digits);
        assert(power_of_ten(0) == 1);
        assert(power_of_ten(1) == 10);
        assert(power_of_ten(2) == 100);
        assert(power_of_ten(3) == 1_000);
        assert(power_of_ten(4) == 10_000);
    }
    let value = match decimal(text, from, to, 9_999) {
        Some(value) => value,
        None => 0,
    };
    let width = to - from;
    let scale: u64 = if width == 0 {
        10_000
    } else if width == 1 {
        1_000
    } else if width == 2 {
        100
    } else if width == 3 {
        10
    } else {
        1
    };
    assert(scale == power_of_ten((4 - width) as nat));
    assert(value < power_of_ten(width as nat));
    assert(value * scale < 10_000) by (nonlinear_arith)
        requires
            (scale == 10_000 && value < 1) || (scale == 1_000 && value < 10) || (scale == 100
                && value < 100) || (scale == 10 && value < 1_000) || (scale == 1 && value
                < 10_000),
    ;
    value * scale
}

} // verus!
