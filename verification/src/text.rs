//! Decimal numbers as text: what a run of digits stands for, and how a
//! number is written.
use vstd::prelude::*;
use vstd::std_specs::iter::IteratorSpec;
use vstd::string::*;

verus! {

/// Whether `c` is one of the ten decimal digits.
pub open spec fn is_digit(c: char) -> bool {
    '0' <= c && c <= '9'
}

/// The number that the digit `c` stands for.
pub open spec fn digit_value(c: char) -> nat {
    (c as int - '0' as int) as nat
}

/// The digit that stands for `d`, for `d` below ten.
pub open spec fn digit_char(d: nat) -> char {
    (d + '0' as int) as char
}

/// Whether `text` holds digits only.
pub open spec fn all_digits(text: Seq<char>) -> bool {
    forall|i: int| 0 <= i < text.len() ==> is_digit(#[trigger] text[i])
}

/// How many digits `text` starts with.
pub open spec fn leading_digits(text: Seq<char>) -> nat
    decreases text.len(),
{
    if text.len() > 0 && is_digit(text[0]) {
        1 + leading_digits(text.drop_first())
    } else {
        0
    }
}

/// The number that a run of digits stands for, read as a decimal number.
/// The empty run stands for zero.
pub open spec fn decimal_value(digits: Seq<char>) -> nat
    decreases digits.len(),
{
    if digits.len() == 0 {
        0
    } else {
        decimal_value(digits.drop_last()) * 10 + digit_value(digits.last())
    }
}

/// Ten to the power of `exponent`.
pub open spec fn power_of_ten(exponent: nat) -> nat
    decreases exponent,
{
    if exponent == 0 {
        1
    } else {
        10 * power_of_ten((exponent - 1) as nat)
    }
}

/// The decimal digits of `n`, without leading zeros; zero is written `0`.
pub open spec fn decimal_digits(n: nat) -> Seq<char>
    decreases n,
{
    if n < 10 {
        seq![digit_char(n)]
    } else {
        decimal_digits(n / 10).push(digit_char(n % 10))
    }
}

/// The last `width` decimal digits of `n`, with zeros in front where `n` has
/// fewer.
pub open spec fn padded_digits(n: nat, width: nat) -> Seq<char>
    decreases width,
{
    if width == 0 {
        Seq::empty()
    } else {
        padded_digits(n / 10, (width - 1) as nat).push(digit_char(n % 10))
    }
}

/// Whether `c` is blank: a space, a tab, a line feed, a vertical tab, a form
/// feed or a carriage return.
pub open spec fn is_blank(c: char) -> bool {
    c == ' ' || ('\t' <= c && c <= '\r')
}

/// How many blanks `text` starts with.
pub open spec fn leading_blanks(text: Seq<char>) -> nat
    decreases text.len(),
{
    if text.len() > 0 && is_blank(text[0]) {
        1 + leading_blanks(text.drop_first())
    } else {
        0
    }
}

/// How many blanks `text` ends with.
pub open spec fn trailing_blanks(text: Seq<char>) -> nat
    decreases text.len(),
{
    if text.len() > 0 && is_blank(text.last()) {
        1 + trailing_blanks(text.drop_last())
    } else {
        0
    }
}

/// `text` without the blanks at its start and at its end.
pub open spec fn trimmed(text: Seq<char>) -> Seq<char> {
    let start = leading_blanks(text);
    if start == text.len() {
        Seq::empty()
    } else {
        text.subrange(start as int, text.len() - trailing_blanks(text))
    }
}

/// The number that `text` stands for when it is read as a whole number that
/// is no larger than `max`: an optional plus sign and one digit or more.
pub open spec fn unsigned_of(text: Seq<char>, max: nat) -> Option<nat> {
    let digits = if text.len() > 0 && text[0] == '+' {
        text.drop_first()
    } else {
        text
    };
    if digits.len() > 0 && all_digits(digits) && decimal_value(digits) <= max {
        Some(decimal_value(digits))
    } else {
        None
    }
}

/// The digits that `text` starts with are digits, and what follows them, if
/// anything, is none; so `text` holds digits only exactly when it starts
/// with as many digits as it is long.
pub proof fn lemma_leading_digits(text: Seq<char>)
    ensures
        leading_digits(text) <= text.len(),
        all_digits(text.take(leading_digits(text) as int)),
        leading_digits(text) < text.len() ==> !is_digit(text[leading_digits(text) as int]),
        all_digits(text) <==> leading_digits(text) == text.len(),
    decreases text.len(),
{
    if text.len() > 0 && is_digit(text[0]) {
        let rest = text.drop_first();
        lemma_leading_digits(rest);
        let n = leading_digits(text) as int;
        assert forall|i: int| 0 <= i < n implies is_digit(#[trigger] text.take(n)[i]) by {
            if i > 0 {
                assert(text.take(n)[i] == rest.take(n - 1)[i - 1]);
            }
        }
        if all_digits(text) {
            assert forall|i: int| 0 <= i < rest.len() implies is_digit(#[trigger] rest[i]) by {
                assert(rest[i] == text[i + 1]);
            }
        }
        if n == text.len() {
            assert(text.take(n) =~= text);
        }
    } else {
        assert(text.take(0) =~= Seq::empty());
        if text.len() > 0 && all_digits(text) {
            assert(is_digit(text[0]));
        }
    }
}

/// A run of digits stands for a number below ten to the power of its
/// length.
pub proof fn lemma_decimal_value_bound(digits: Seq<char>)
    requires
        all_digits(digits),
    ensures
        decimal_value(digits) < power_of_ten(digits.len()),
    decreases digits.len(),
{
    if digits.len() > 0 {
        let front = digits.drop_last();
        assert forall|i: int| 0 <= i < front.len() implies is_digit(#[trigger] front[i]) by {
            assert(front[i] == digits[i]);
        }
        lemma_decimal_value_bound(front);
        assert(is_digit(digits[digits.len() - 1]));
    }
}

/// A run of digits followed by nothing, or by what is no digit, is all the
/// digits that the text starts with.
pub proof fn lemma_leading_digits_of_run(digits: Seq<char>, rest: Seq<char>)
    requires
        all_digits(digits),
        rest.len() > 0 ==> !is_digit(rest[0]),
    ensures
        leading_digits(digits + rest) == digits.len(),
    decreases digits.len(),
{
    let text = digits + rest;
    if digits.len() == 0 {
        assert(text =~= rest);
    } else {
        let shorter = digits.drop_first();
        assert(is_digit(digits[0]));
        assert(text[0] == digits[0]);
        assert forall|i: int| 0 <= i < shorter.len() implies is_digit(#[trigger] shorter[i]) by {
            assert(shorter[i] == digits[i + 1]);
        }
        assert(text.drop_first() =~= shorter + rest);
        lemma_leading_digits_of_run(shorter, rest);
    }
}

/// The decimal digits of a number are digits, there is one at least, and
/// they stand for the number.
pub proof fn lemma_decimal_digits(n: nat)
    ensures
        all_digits(decimal_digits(n)),
        decimal_digits(n).len() >= 1,
        decimal_value(decimal_digits(n)) == n,
    decreases n,
{
    let digits = decimal_digits(n);
    if n < 10 {
        assert(digits.drop_last() =~= Seq::empty());
        assert(decimal_value(Seq::empty()) == 0);
        assert(digits.last() == digit_char(n));
        assert(digit_value(digit_char(n)) == n);
    } else {
        let front = decimal_digits(n / 10);
        lemma_decimal_digits(n / 10);
        assert(digits.drop_last() =~= front);
        assert(digits.last() == digit_char(n % 10));
        assert forall|i: int| 0 <= i < digits.len() implies is_digit(#[trigger] digits[i]) by {
            if i < front.len() {
                assert(digits[i] == front[i]);
            }
        }
    }
}

/// The digits of a number, padded to a width that the number fits in, are
/// digits, as many as the width, and they stand for the number.
pub proof fn lemma_padded_digits(n: nat, width: nat)
    requires
        n < power_of_ten(width),
    ensures
        all_digits(padded_digits(n, width)),
        padded_digits(n, width).len() == width,
        decimal_value(padded_digits(n, width)) == n,
    decreases width,
{
    let digits = padded_digits(n, width);
    if width > 0 {
        let front = padded_digits(n / 10, (width - 1) as nat);
        lemma_padded_digits(n / 10, (width - 1) as nat);
        assert(digits.drop_last() =~= front);
        assert(digits.last() == digit_char(n % 10));
        assert forall|i: int| 0 <= i < digits.len() implies is_digit(#[trigger] digits[i]) by {
            if i < front.len() {
                assert(digits[i] == front[i]);
            }
        }
    }
}

/// The characters of `text`.
pub fn chars_of(text: &str) -> (chars: Vec<char>)
    ensures
        chars@ == text@,
{
    let mut chars: Vec<char> = Vec::new();
    let iter = text.chars();
    for c in it: iter
        invariant
            it.seq() == text@,
            chars@ == it.seq().take(it.index()),
    {
        chars.push(c);
        assert(chars@ =~= it.seq().take(it.index() + 1));
    }
    assert(chars@ =~= text@);
    chars
}

/// The number that `c` stands for, if it is a digit.
pub fn digit_of(c: char) -> (digit: Option<u8>)
    ensures
        match digit {
            Some(d) => is_digit(c) && d == digit_value(c),
            None => !is_digit(c),
        },
{
    if '0' <= c && c <= '9' {
        Some((c as u32 - '0' as u32) as u8)
    } else {
        None
    }
}

/// Whether `c` is blank.
pub fn blank(c: char) -> (blank: bool)
    ensures
        blank == is_blank(c),
{
    c == ' ' || ('\t' <= c && c <= '\r')
}

/// Where `text` starts once its leading blanks are left out, and where it
/// ends once its trailing blanks are: `text` between the two is `text`
/// trimmed.
pub fn trim(text: &Vec<char>) -> (bounds: (usize, usize))
    ensures
        bounds.0 <= bounds.1 <= text@.len(),
        text@.subrange(bounds.0 as int, bounds.1 as int) == trimmed(text@),
{
    let mut start: usize = 0;
    assert(text@.skip(0) =~= text@);
    while start < text.len() && blank(text[start])
        invariant
            start <= text@.len(),
            leading_blanks(text@) == start + leading_blanks(text@.skip(start as int)),
        decreases text@.len() - start,
    {
        assert(text@.skip(start as int).drop_first() =~= text@.skip(start + 1));
        start = start + 1;
    }
    if start == text.len() {
        assert(text@.subrange(start as int, start as int) =~= Seq::empty());
        return (start, start);
    }
    let mut end: usize = text.len();
    assert(text@.take(end as int) =~= text@);
    while end > start && blank(text[end - 1])
        invariant
            start < end <= text@.len(),
            !is_blank(text@[start as int]),
            trailing_blanks(text@) == (text@.len() - end) + trailing_blanks(text@.take(end as int)),
        decreases end,
    {
        assert(text@.take(end as int).drop_last() =~= text@.take(end - 1));
        end = end - 1;
    }
    assert(leading_blanks(text@.skip(start as int)) == 0);
    assert(trailing_blanks(text@.take(end as int)) == 0);
    (start, end)
}

/// Where the run of digits that starts at `from` ends.
pub fn digits_end(text: &Vec<char>, from: usize, to: usize) -> (end: usize)
    requires
        from <= to <= text@.len(),
    ensures
        end == from + leading_digits(text@.subrange(from as int, to as int)),
        from <= end <= to,
{
    let mut end: usize = from;
    let ghost field = text@.subrange(from as int, to as int);
    assert(field.skip(0) =~= field);
    while end < to && digit_of(text[end]).is_some()
        invariant
            from <= end <= to <= text@.len(),
            field == text@.subrange(from as int, to as int),
            leading_digits(field) == (end - from) + leading_digits(field.skip(end - from)),
        decreases to - end,
    {
        assert(field.skip(end - from).drop_first() =~= field.skip(end - from + 1));
        end = end + 1;
    }
    end
}

/// The number that the digits of `text` between `from` and `to` stand for,
/// or `None` when one of the characters is no digit or the number is above
/// `limit`.
pub fn decimal(text: &Vec<char>, from: usize, to: usize, limit: u64) -> (value: Option<u64>)
    requires
        from <= to <= text@.len(),
    ensures
        match value {
            Some(value) => all_digits(text@.subrange(from as int, to as int)) && value
                == decimal_value(text@.subrange(from as int, to as int)) && value <= limit,
            None => !all_digits(text@.subrange(from as int, to as int)) || decimal_value(
                text@.subrange(from as int, to as int),
            ) > limit,
        },
{
    let ghost field = text@.subrange(from as int, to as int);
    let mut value: u64 = 0;
    let mut above = false;
    let mut at: usize = from;
    assert(field.take(0) =~= Seq::empty());
    while at < to
        invariant
            from <= at <= to <= text@.len(),
            field == text@.subrange(from as int, to as int),
            all_digits(field.take(at - from)),
            !above ==> value == decimal_value(field.take(at - from)) && value <= limit,
            above ==> decimal_value(field.take(at - from)) > limit,
        decreases to - at,
    {
        let digit = match digit_of(text[at]) {
            Some(digit) => digit,
            None => {
                assert(!is_digit(field[at - from]));
                return None;
            },
        };
        let ghost seen = field.take(at - from + 1);
        assert(seen.drop_last() =~= field.take(at - from));
        assert(seen.last() == field[at - from]);
        assert(all_digits(seen)) by {
            assert forall|i: int| 0 <= i < seen.len() implies is_digit(#[trigger] seen[i]) by {
                if i < seen.len() - 1 {
                    assert(seen[i] == field.take(at - from)[i]);
                }
            }
        }
        if !above {
            let next: u128 = value as u128 * 10 + digit as u128;
            if next > limit as u128 {
                above = true;
            } else {
                value = next as u64;
            }
        }
        at = at + 1;
    }
    assert(field.take(to - from) =~= field);
    if above {
        None
    } else {
        Some(value)
    }
}

/// The whole number that the characters of `text` between `from` and `to`
/// stand for, if they stand for one that is no larger than `max`.
pub fn unsigned(text: &Vec<char>, from: usize, to: usize, max: u64) -> (value: Option<u64>)
    requires
        from <= to <= text@.len(),
    ensures
        match value {
            Some(value) => unsigned_of(text@.subrange(from as int, to as int), max as nat) == Some(
                value as nat,
            ),
            None => unsigned_of(text@.subrange(from as int, to as int), max as nat) is None,
        },
{
    let start: usize = if from < to && text[from] == '+' {
        from + 1
    } else {
        from
    };
    assert(text@.subrange(start as int, to as int) =~= if from < to && text@[from as int] == '+' {
        text@.subrange(from as int, to as int).drop_first()
    } else {
        text@.subrange(from as int, to as int)
    });
    if start == to {
        return None;
    }
    decimal(text, start, to, max)
}

/// Whether two texts are the same.
pub fn same_text(left: &str, right: &str) -> (same: bool)
    ensures
        same == (left@ == right@),
{
    let a = chars_of(left);
    let b = chars_of(right);
    if a.len() != b.len() {
        return false;
    }
    let mut at: usize = 0;
    while at < a.len()
        invariant
            at <= a@.len() == b@.len(),
            a@ == left@,
            b@ == right@,
            a@.take(at as int) == b@.take(at as int),
        decreases a@.len() - at,
    {
        if a[at] != b[at] {
            assert(left@[at as int] != right@[at as int]);
            return false;
        }
        assert(a@.take(at + 1) =~= a@.take(at as int).push(a@[at as int]));
        assert(b@.take(at + 1) =~= b@.take(at as int).push(b@[at as int]));
        at = at + 1;
    }
    assert(a@ =~= a@.take(at as int));
    assert(b@ =~= b@.take(at as int));
    true
}

/// The digit that stands for `d`, as text.
pub fn digit_text(d: u8) -> (text: &'static str)
    requires
        d < 10,
    ensures
        text@ == seq![digit_char(d as nat)],
{
    proof {
        reveal_strlit("0");
        reveal_strlit("1");
        reveal_strlit("2");
        reveal_strlit("3");
        reveal_strlit("4");
        reveal_strlit("5");
        reveal_strlit("6");
        reveal_strlit("7");
        reveal_strlit("8");
        reveal_strlit("9");
    }
    let text = if d == 0 {
        "0"
    } else if d == 1 {
        "1"
    } else if d == 2 {
        "2"
    } else if d == 3 {
        "3"
    } else if d == 4 {
        "4"
    } else if d == 5 {
        "5"
    } else if d == 6 {
        "6"
    } else if d == 7 {
        "7"
    } else if d == 8 {
        "8"
    } else {
        "9"
    };
    assert(text@ =~= seq![digit_char(d as nat)]);
    text
}

/// Writes `n` in decimal at the end of `text`.
pub fn push_decimal(text: &mut String, n: u64)
    ensures
        final(text)@ == old(text)@ + decimal_digits(n as nat),
    decreases n,
{
    if n >= 10 {
        push_decimal(text, n / 10);
    }
    text.append(digit_text((n % 10) as u8));
    assert(text@ =~= old(text)@ + decimal_digits(n as nat));
}

/// Writes the last `width` decimal digits of `n` at the end of `text`.
pub fn push_padded(text: &mut String, n: u64, width: usize)
    ensures
        final(text)@ == old(text)@ + padded_digits(n as nat, width as nat),
    decreases width,
{
    if width > 0 {
        push_padded(text, n / 10, width - 1);
        text.append(digit_text((n % 10) as u8));
    }
    assert(text@ =~= old(text)@ + padded_digits(n as nat, width as nat));
}

} // verus!
