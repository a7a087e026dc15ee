//! The names of diff files: `<name>.diff.<unix seconds>.pdf`.
//!
//! File names are taken as bytes. The time of a diff is written in decimal
//! and read back from the field between the last two dots of the name.

use vstd::prelude::*;
use vstd::string::StringExecFns;

verus! {

/// Whether `byte` is a decimal digit.
pub open spec fn is_digit(byte: u8) -> bool {
    48 <= byte <= 57
}

/// Whether every byte of `text` is a decimal digit.
pub open spec fn all_digits(text: Seq<u8>) -> bool {
    forall|i: int| 0 <= i < text.len() ==> is_digit(#[trigger] text[i])
}

/// The number that a string of decimal digits stands for.
pub open spec fn digits_value(digits: Seq<u8>) -> nat
    decreases digits.len(),
{
    if digits.len() == 0 {
        0
    } else {
        (digits_value(digits.drop_last()) * 10 + (digits.last() - 48)) as nat
    }
}

/// The number that `text` stands for, read as a 64-bit signed decimal: an
/// optional sign followed by at least one digit. `None` where `text` is
/// not of that form or the number does not fit.
pub open spec fn decimal_value(text: Seq<u8>) -> Option<i64> {
    let signed = text.len() > 0 && (text[0] == 45 || text[0] == 43);
    let digits = if signed {
        text.skip(1)
    } else {
        text
    };
    let value = if signed && text[0] == 45 {
        -(digits_value(digits) as int)
    } else {
        digits_value(digits) as int
    };
    if digits.len() > 0 && all_digits(digits) && i64::MIN <= value <= i64::MAX {
        Some(value as i64)
    } else {
        None
    }
}

/// The decimal digits of a number, without leading zeros.
pub open spec fn digits_of(number: nat) -> Seq<u8>
    decreases number,
{
    if number < 10 {
        seq![(48 + number) as u8]
    } else {
        digits_of(number / 10).push((48 + number % 10) as u8)
    }
}

/// A number in decimal, with a minus sign before a negative one.
pub open spec fn decimal_text(number: int) -> Seq<u8> {
    if number < 0 {
        seq![45u8] + digits_of((-number) as nat)
    } else {
        digits_of(number as nat)
    }
}

/// Whether `text` holds no dot.
pub open spec fn dotless(text: Seq<u8>) -> bool {
    forall|i: int| 0 <= i < text.len() ==> #[trigger] text[i] != 46
}

/// The place of the last dot of `text`, if it holds one.
pub open spec fn last_dot(text: Seq<u8>) -> Option<int>
    decreases text.len(),
{
    if text.len() == 0 {
        None
    } else if text.last() == 46 {
        Some(text.len() - 1)
    } else {
        last_dot(text.drop_last())
    }
}

/// Where the field before the last dot of `name` starts and ends: it
/// stands between the second-to-last dot, or the start of the name, and
/// the last dot. `None` where `name` holds no dot.
pub open spec fn field_bounds(name: Seq<u8>) -> Option<(int, int)> {
    match last_dot(name) {
        None => None,
        Some(last) => {
            let start = match last_dot(name.take(last)) {
                Some(dot) => dot + 1,
                None => 0,
            };
            Some((start, last))
        },
    }
}

/// The field before the last dot of `name`. `None` where `name` holds no
/// dot.
pub open spec fn second_to_last_field(name: Seq<u8>) -> Option<Seq<u8>> {
    match field_bounds(name) {
        None => None,
        Some((start, end)) => Some(name.subrange(start, end)),
    }
}

/// The name of the diff of the file `name`, made at `unix_seconds`.
pub open spec fn diff_name(name: Seq<u8>, unix_seconds: i64) -> Seq<u8> {
    name + seq![46u8, 100u8, 105u8, 102u8, 102u8, 46u8] + decimal_text(unix_seconds as int)
        + seq![46u8, 112u8, 100u8, 102u8]
}

/// The name that stands in for a file whose own name cannot be had.
pub open spec fn unknown_name() -> Seq<u8> {
    seq![
        117u8, 110u8, 107u8, 110u8, 111u8, 119u8, 110u8, 95u8, 102u8, 105u8, 108u8, 101u8, 110u8, 97u8,
        109u8, 101u8,
    ]
}

/// Why the name of a diff file does not give the time of the diff.
#[derive(Debug, Clone, Copy, PartialEq, Eq, Structural)]
pub enum FileNameError {
    /// The name holds no dot, and so no field before the last one.
    TooShort,
    /// The field before the last dot is no 64-bit decimal number.
    NotANumber,
}

impl FileNameError {
    /// The error in words.
    pub open spec fn text(&self) -> Seq<char> {
        match *self {
            FileNameError::TooShort => "Unable to parse filename. Filename is too short"@,
            FileNameError::NotANumber =>
                "Unable to parse filename. Not a valid number inside filename"@,
        }
    }

    /// The error in words.
    pub fn message(&self) -> (message: String)
        ensures
            message@ == self.text(),
    {
        match self {
            FileNameError::TooShort => String::from_str(
                "Unable to parse filename. Filename is too short",
            ),
            FileNameError::NotANumber => String::from_str(
                "Unable to parse filename. Not a valid number inside filename",
            ),
        }
    }
}

/// The time that the name of a diff file gives: the number in its
/// second-to-last field.
pub open spec fn diff_time(name: Seq<u8>) -> Result<i64, FileNameError> {
    match second_to_last_field(name) {
        None => Err(FileNameError::TooShort),
        Some(field) => match decimal_value(field) {
            None => Err(FileNameError::NotANumber),
            Some(seconds) => Ok(seconds),
        },
    }
}

/// The last dot of a text is a dot, and no dot follows it; a text without
/// a last dot holds no dot.
pub proof fn lemma_last_dot(text: Seq<u8>)
    ensures
        match last_dot(text) {
            Some(last) => 0 <= last < text.len() && text[last] == 46 && forall|i: int|
                last < i < text.len() ==> #[trigger] text[i] != 46,
            None => dotless(text),
        },
    decreases text.len(),
{
    if text.len() > 0 && text.last() != 46 {
        let head = text.drop_last();
        lemma_last_dot(head);
        match last_dot(head) {
            Some(last) => {
                assert forall|i: int| last < i < text.len() implies #[trigger] text[i] != 46 by {
                    if i < head.len() {
                        assert(head[i] != 46);
                    }
                }
            },
            None => {
                assert forall|i: int| 0 <= i < text.len() implies #[trigger] text[i] != 46 by {
                    if i < head.len() {
                        assert(head[i] != 46);
                    }
                }
            },
        }
    }
}

/// Where a dot at `at` is followed by no other, it is the last dot.
pub proof fn lemma_last_dot_at(text: Seq<u8>, at: int)
    requires
        0 <= at < text.len(),
        text[at] == 46,
        forall|i: int| at < i < text.len() ==> #[trigger] text[i] != 46,
    ensures
        last_dot(text) == Some(at),
    decreases text.len(),
{
    if text.len() - 1 > at {
        let head = text.drop_last();
        assert forall|i: int| at < i < head.len() implies #[trigger] head[i] != 46 by {
            assert(text[i] != 46);
        }
        lemma_last_dot_at(head, at);
    }
}

/// A text without a dot has no last dot.
pub proof fn lemma_last_dot_none(text: Seq<u8>)
    requires
        dotless(text),
    ensures
        last_dot(text) is None,
    decreases text.len(),
{
    if text.len() > 0 {
        let head = text.drop_last();
        assert(text[text.len() - 1] != 46);
        assert forall|i: int| 0 <= i < head.len() implies #[trigger] head[i] != 46 by {
            assert(text[i] != 46);
        }
        lemma_last_dot_none(head);
    }
}

/// The digits of a number are digits, at least one, and stand for the
/// number.
pub proof fn lemma_digits_of(number: nat)
    ensures
        digits_of(number).len() > 0,
        all_digits(digits_of(number)),
        digits_value(digits_of(number)) == number,
    decreases number,
{
    if number >= 10 {
        lemma_digits_of(number / 10);
        let head = digits_of(number / 10);
        let whole = digits_of(number);
        assert(whole.drop_last() =~= head);
        assert(whole.last() == (48 + number % 10) as u8);
        assert(digits_value(whole) == digits_value(head) * 10 + (whole.last() - 48));
        assert forall|i: int| 0 <= i < whole.len() implies is_digit(#[trigger] whole[i]) by {
            if i < head.len() {
                assert(is_digit(head[i]));
            }
        }
    } else {
        let whole = digits_of(number);
        assert(whole.drop_last() =~= Seq::<u8>::empty());
        assert(whole.last() == (48 + number) as u8);
        assert(digits_value(whole.drop_last()) == 0);
        assert(digits_value(whole) == digits_value(whole.drop_last()) * 10 + (whole.last() - 48));
    }
}

/// A number that fits in 64 bits is read back from its decimal text.
pub proof fn lemma_decimal_round_trip(number: i64)
    ensures
        decimal_value(decimal_text(number as int)) == Some(number),
        dotless(decimal_text(number as int)),
{
    let text = decimal_text(number as int);
    if number < 0 {
        let magnitude = (-(number as int)) as nat;
        lemma_digits_of(magnitude);
        assert(text.skip(1) =~= digits_of(magnitude));
        assert forall|i: int| 0 <= i < text.len() implies #[trigger] text[i] != 46 by {
            if i > 0 {
                assert(is_digit(digits_of(magnitude)[i - 1]));
            }
        }
    } else {
        lemma_digits_of(number as nat);
        assert(is_digit(text[0]));
        assert forall|i: int| 0 <= i < text.len() implies #[trigger] text[i] != 46 by {
            assert(is_digit(text[i]));
        }
    }
}

/// The time of a diff is read back from the name made for it, whatever
/// the name of the file and whenever the diff was made.
pub proof fn lemma_diff_name_round_trip(name: Seq<u8>, unix_seconds: i64)
    ensures
        diff_time(diff_name(name, unix_seconds)) == Ok::<i64, FileNameError>(unix_seconds),
{
    let number = decimal_text(unix_seconds as int);
    let head = name + seq![46u8, 100u8, 105u8, 102u8, 102u8, 46u8];
    let whole = diff_name(name, unix_seconds);
    lemma_decimal_round_trip(unix_seconds);
    let last: int = (head.len() + number.len()) as int;
    assert(whole.len() == last + 4);
    assert(whole[last] == 46);
    assert(whole[last + 1] == 112);
    assert(whole[last + 2] == 100);
    assert(whole[last + 3] == 102);
    lemma_last_dot_at(whole, last);
    let before = whole.take(last);
    assert(before =~= head + number);
    let dot: int = head.len() - 1;
    assert(before[dot] == 46);
    assert forall|i: int| dot < i < before.len() implies #[trigger] before[i] != 46 by {
        assert(before[i] == number[i - head.len()]);
    }
    lemma_last_dot_at(before, dot);
    assert(whole.subrange(dot + 1, last) =~= number);
}

/// Reading one more digit multiplies what was read by ten and adds the
/// digit.
pub proof fn lemma_digits_value_step(digits: Seq<u8>, count: int)
    requires
        0 <= count < digits.len(),
        is_digit(digits[count]),
    ensures
        digits_value(digits.take(count + 1)) == digits_value(digits.take(count)) * 10 + (
        digits[count] - 48),
{
    assert(digits.take(count + 1).drop_last() =~= digits.take(count));
}

/// A string of digits stands for no less than any of its beginnings.
pub proof fn lemma_digits_value_grows(digits: Seq<u8>, count: int)
    requires
        0 <= count <= digits.len(),
        all_digits(digits),
    ensures
        digits_value(digits.take(count)) <= digits_value(digits),
    decreases digits.len() - count,
{
    if count < digits.len() {
        assert(is_digit(digits[count]));
        lemma_digits_value_step(digits, count);
        lemma_digits_value_grows(digits, count + 1);
    } else {
        assert(digits.take(count) =~= digits);
    }
}

/// Appends the decimal digits of `number` to `out`.
fn push_digits(number: u64, out: &mut Vec<u8>)
    ensures
        final(out)@ == old(out)@ + digits_of(number as nat),
    decreases number,
{
    if number >= 10 {
        push_digits(number / 10, out);
    }
    let digit: u8 = (number % 10) as u8;
    out.push(48 + digit);
    assert(final(out)@ =~= old(out)@ + digits_of(number as nat));
}

/// Writes a number in decimal, with a minus sign before a negative one.
pub fn decimal(number: i64) -> (text: Vec<u8>)
    ensures
        text@ == decimal_text(number as int),
{
    let mut text: Vec<u8> = Vec::new();
    if number < 0 {
        text.push(45);
        let magnitude: u64 = (-(number as i128)) as u64;
        push_digits(magnitude, &mut text);
    } else {
        push_digits(number as u64, &mut text);
    }
    proof {
        assert(text@ =~= decimal_text(number as int));
    }
    text
}

/// Appends `tail` to `out`.
fn push_all(out: &mut Vec<u8>, tail: &[u8])
    ensures
        final(out)@ == old(out)@ + tail@,
{
    let mut i: usize = 0;
    while i < tail.len()
        invariant
            i <= tail@.len(),
            out@ == old(out)@ + tail@.take(i as int),
        decreases tail@.len() - i,
    {
        out.push(tail[i]);
        i = i + 1;
        proof {
            assert(out@ =~= old(out)@ + tail@.take(i as int));
        }
    }
    proof {
        assert(tail@.take(i as int) =~= tail@);
    }
}

/// The name of the diff of a file, made at `unix_seconds` seconds of Unix
/// time: the file's name, `.diff.`, the seconds in decimal, and `.pdf`. A
/// file whose name cannot be had goes by `unknown_filename`.
pub fn diff_file_name(name: Option<&[u8]>, unix_seconds: i64) -> (file_name: Vec<u8>)
    ensures
        file_name@ == diff_name(
            match name {
                Some(name) => name@,
                None => unknown_name(),
            },
            unix_seconds,
        ),
{
    let mut file_name: Vec<u8> = Vec::new();
    match name {
        Some(name) => {
            push_all(&mut file_name, name);
        },
        None => {
            let unknown: [u8; 16] = [
                117,
                110,
                107,
                110,
                111,
                119,
                110,
                95,
                102,
                105,
                108,
                101,
                110,
                97,
                109,
                101,
            ];
            push_all(&mut file_name, unknown.as_slice());
            proof {
                assert(unknown@ =~= unknown_name());
            }
        },
    }
    let infix: [u8; 6] = [46, 100, 105, 102, 102, 46];
    push_all(&mut file_name, infix.as_slice());
    let seconds = decimal(unix_seconds);
    push_all(&mut file_name, seconds.as_slice());
    let suffix: [u8; 4] = [46, 112, 100, 102];
    push_all(&mut file_name, suffix.as_slice());
    proof {
        assert(infix@ =~= seq![46u8, 100u8, 105u8, 102u8, 102u8, 46u8]);
        assert(suffix@ =~= seq![46u8, 112u8, 100u8, 102u8]);
    }
    file_name
}

/// Finds the last dot among the first `end` bytes of `text`.
fn find_last_dot(text: &[u8], end: usize) -> (found: Option<usize>)
    requires
        end <= text@.len(),
    ensures
        match found {
            Some(at) => at < end && last_dot(text@.take(end as int)) == Some(at as int),
            None => last_dot(text@.take(end as int)) is None,
        },
{
    let mut i: usize = end;
    while i > 0
        invariant
            i <= end <= text@.len(),
            forall|j: int| i <= j < end ==> #[trigger] text@[j] != 46,
        decreases i,
    {
        i = i - 1;
        if text[i] == 46 {
            proof {
                lemma_last_dot_at(text@.take(end as int), i as int);
            }
            return Some(i);
        }
    }
    proof {
        lemma_last_dot_none(text@.take(end as int));
    }
    None
}

/// Reads the bytes of `text` from `start` up to `end` as a 64-bit signed
/// decimal number: an optional `+` or `-`, then at least one digit.
pub fn parse_decimal(text: &[u8], start: usize, end: usize) -> (number: Option<i64>)
    requires
        start <= end <= text@.len(),
    ensures
        number == decimal_value(text@.subrange(start as int, end as int)),
{
    let ghost field = text@.subrange(start as int, end as int);
    let signed = start < end && (text[start] == 45 || text[start] == 43);
    let negative = signed && text[start] == 45;
    let first = if signed {
        start + 1
    } else {
        start
    };
    let ghost digits = if signed {
        field.skip(1)
    } else {
        field
    };
    proof {
        if start < end {
            assert(field[0] == text@[start as int]);
        }
        assert(digits =~= text@.subrange(first as int, end as int));
    }
    if first == end {
        return None;
    }
    let limit: u64 = 9223372036854775808;
    let mut value: u64 = 0;
    let mut i: usize = first;
    assert(digits.take(0).len() == 0);
    while i < end
        invariant
            first <= i <= end <= text@.len(),
            field == text@.subrange(start as int, end as int),
            signed == (field.len() > 0 && (field[0] == 45 || field[0] == 43)),
            digits == if signed {
                field.skip(1)
            } else {
                field
            },
            digits == text@.subrange(first as int, end as int),
            limit == 9223372036854775808,
            all_digits(digits.take(i - first)),
            value == digits_value(digits.take(i - first)),
            value <= limit,
        decreases end - i,
    {
        let byte = text[i];
        if byte < 48 || byte > 57 {
            proof {
                assert(digits[i - first] == byte);
                assert(!is_digit(digits[i - first]));
            }
            return None;
        }
        let digit: u64 = (byte - 48) as u64;
        proof {
            assert(digits[i - first] == byte);
            lemma_digits_value_step(digits, i - first);
            assert forall|j: int| 0 <= j < i - first + 1 implies is_digit(
                #[trigger] digits.take(i - first + 1)[j],
            ) by {
                if j < i - first {
                    assert(is_digit(digits.take(i - first)[j]));
                }
            }
        }
        if value > (limit - digit) / 10 {
            proof {
                if all_digits(digits) {
                    lemma_digits_value_grows(digits, i - first + 1);
                }
            }
            return None;
        }
        value = value * 10 + digit;
        i = i + 1;
    }
    proof {
        assert(digits.take(end - first) =~= digits);
    }
    if negative {
        Some((-(value as i128)) as i64)
    } else if value == limit {
        None
    } else {
        Some(value as i64)
    }
}

/// Finds the field before the last dot of `name`: the places of its first
/// byte and of the dot that ends it. `None` where `name` holds no dot.
pub fn find_field(name: &[u8]) -> (bounds: Option<(usize, usize)>)
    ensures
        match bounds {
            Some((start, end)) => start <= end < name@.len() && field_bounds(name@) == Some(
                (start as int, end as int),
            ),
            None => field_bounds(name@) is None,
        },
{
    proof {
        assert(name@.take(name@.len() as int) =~= name@);
    }
    match find_last_dot(name, name.len()) {
        None => None,
        Some(last) => {
            let start = match find_last_dot(name, last) {
                Some(dot) => dot + 1,
                None => 0,
            };
            Some((start, last))
        },
    }
}

/// Reads the time of a diff from the name of its file: the number in the
/// field before the last dot. A name without a dot is too short to hold
/// one.
pub fn parse_diff_timestamp(name: &[u8]) -> (time: Result<i64, FileNameError>)
    ensures
        time == diff_time(name@),
{
    match find_field(name) {
        None => Err(FileNameError::TooShort),
        Some((start, end)) => match parse_decimal(name, start, end) {
            None => Err(FileNameError::NotANumber),
            Some(seconds) => Ok(seconds),
        },
    }
}

} // verus!
