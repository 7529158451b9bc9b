use vstd::prelude::*;

use crate::error::Error;
use crate::text::{
    chars_of, count_char, lemma_split_on_len, lemma_split_on_two, split_char, split_on, str_is,
};

verus! {

broadcast use vstd::string::group_string_axioms;

pub open spec fn is_digit(c: char) -> bool {
    '0' <= c && c <= '9'
}

pub open spec fn all_digits(s: Seq<char>) -> bool {
    forall|i: int| 0 <= i < s.len() ==> is_digit(#[trigger] s[i])
}

/// The number that the decimal digits `s` spell.
pub open spec fn digits_value(s: Seq<char>) -> nat
    decreases s.len(),
{
    if s.len() == 0 {
        0
    } else {
        digits_value(s.drop_last()) * 10 + ((s.last() as int) - ('0' as int)) as nat
    }
}

/// The unsigned number that `s` spells, as `str::parse::<u32>` reads it: an
/// optional `+`, then at least one decimal digit, and a value that fits.
pub open spec fn spec_parse_u32(s: Seq<char>) -> Option<u32> {
    let digits = if s.len() > 0 && s[0] == '+' {
        s.drop_first()
    } else {
        s
    };
    if digits.len() > 0 && all_digits(digits) && digits_value(digits) <= u32::MAX {
        Some(digits_value(digits) as u32)
    } else {
        None
    }
}

/// A longer run of digits is worth at least as much as its prefix.
proof fn lemma_digits_value_monotone(s: Seq<char>, i: int)
    requires
        0 <= i <= s.len(),
        all_digits(s),
    ensures
        digits_value(s.take(i)) <= digits_value(s),
    decreases s.len() - i,
{
    if i < s.len() {
        lemma_digits_value_monotone(s, i + 1);
        let t = s.take(i + 1);
        assert(t.drop_last() =~= s.take(i));
        assert(is_digit(s[i]));
    } else {
        assert(s.take(i) =~= s);
    }
}

/// Reads an unsigned 32-bit number the way `str::parse::<u32>` does.
pub fn parse_u32(s: &str) -> (r: Option<u32>)
    ensures
        r == spec_parse_u32(s@),
{
    let chars = chars_of(s);
    let start: usize = if chars.len() > 0 && chars[0] == '+' {
        1
    } else {
        0
    };
    let ghost digits = if s@.len() > 0 && s@[0] == '+' {
        s@.drop_first()
    } else {
        s@
    };
    assert(digits =~= chars@.skip(start as int));
    if start == chars.len() {
        return None;
    }
    let mut value: u64 = 0;
    let mut i: usize = start;
    assert(digits.take(0) =~= Seq::<char>::empty());
    while i < chars.len()
        invariant
            start <= i <= chars.len(),
            chars@ == s@,
            digits == chars@.skip(start as int),
            digits == (if s@.len() > 0 && s@[0] == '+' {
                s@.drop_first()
            } else {
                s@
            }),
            digits.len() > 0,
            all_digits(digits.take(i - start)),
            value == digits_value(digits.take(i - start)),
            value <= u32::MAX,
        decreases chars.len() - i,
    {
        let c = chars[i];
        let ghost k = i - start;
        assert(digits[k] == c);
        assert(digits.take(k + 1).drop_last() =~= digits.take(k));
        if c < '0' || c > '9' {
            assert(!all_digits(digits)) by {
                assert(!is_digit(digits[k]));
            }
            return None;
        }
        let d = (c as u64) - ('0' as u64);
        let next = value * 10 + d;
        assert(all_digits(digits.take(k + 1))) by {
            assert forall|j: int| 0 <= j < k + 1 implies is_digit(#[trigger] digits.take(k + 1)[j]) by {
                if j < k {
                    assert(digits.take(k + 1)[j] == digits.take(k)[j]);
                }
            }
        }
        assert(next == digits_value(digits.take(k + 1)));
        if next > 0xffff_ffff {
            proof {
                if all_digits(digits) {
                    lemma_digits_value_monotone(digits, k + 1);
                }
            }
            return None;
        }
        value = next;
        i = i + 1;
    }
    assert(digits.take(i - start) =~= digits);
    Some(value as u32)
}

/// A point of time relative to the data or a given number.
#[derive(Debug, Clone, Copy, PartialEq, Eq, Structural)]
pub enum TimeValue {
    First,
    Last,
    Value(u32),
}

impl TimeValue {
    /// What `TimeValue::from_str` gives for `raw`.
    pub open spec fn parsed(raw: Seq<char>) -> Result<TimeValue, Error> {
        if raw == "latest"@ {
            Ok(TimeValue::Last)
        } else if raw == "oldest"@ {
            Ok(TimeValue::First)
        } else {
            match spec_parse_u32(raw) {
                Some(n) => Ok(TimeValue::Value(n)),
                None => Err(Error::WrongTimeValue),
            }
        }
    }

    /// `latest`, `oldest`, or an unsigned number.
    pub fn from_str(raw: String) -> (r: Result<TimeValue, Error>)
        ensures
            r == TimeValue::parsed(raw@),
    {
        if str_is(&raw, "latest") {
            Ok(TimeValue::Last)
        } else if str_is(&raw, "oldest") {
            Ok(TimeValue::First)
        } else {
            match parse_u32(raw.as_str()) {
                Some(n) => Ok(TimeValue::Value(n)),
                None => Err(Error::WrongTimeValue),
            }
        }
    }
}

#[derive(Debug, Clone, Copy, PartialEq, Eq, Structural)]
pub enum TimePrecision {
    Year,
    Quarter,
    Month,
    Week,
    Day,
}

impl TimePrecision {
    /// What `TimePrecision::from_str` gives for `raw`.
    pub open spec fn parsed(raw: Seq<char>) -> Result<TimePrecision, Error> {
        if raw == "year"@ {
            Ok(TimePrecision::Year)
        } else if raw == "quarter"@ {
            Ok(TimePrecision::Quarter)
        } else if raw == "month"@ {
            Ok(TimePrecision::Month)
        } else if raw == "week"@ {
            Ok(TimePrecision::Week)
        } else if raw == "day"@ {
            Ok(TimePrecision::Day)
        } else {
            Err(Error::WrongTimePrecision)
        }
    }

    /// `year`, `quarter`, `month`, `week` or `day`.
    pub fn from_str(raw: String) -> (r: Result<TimePrecision, Error>)
        ensures
            r == TimePrecision::parsed(raw@),
    {
        if str_is(&raw, "year") {
            Ok(TimePrecision::Year)
        } else if str_is(&raw, "quarter") {
            Ok(TimePrecision::Quarter)
        } else if str_is(&raw, "month") {
            Ok(TimePrecision::Month)
        } else if str_is(&raw, "week") {
            Ok(TimePrecision::Week)
        } else if str_is(&raw, "day") {
            Ok(TimePrecision::Day)
        } else {
            Err(Error::WrongTimePrecision)
        }
    }
}

#[derive(Debug, Clone, Copy, PartialEq, Eq, Structural)]
pub struct Time {
    pub precision: TimePrecision,
    pub value: TimeValue,
}

impl Time {
    /// What `Time::from_key_value` gives: the precision is read first, and its
    /// error is the one reported where both are wrong.
    pub open spec fn from_parts(key: Seq<char>, value: Seq<char>) -> Result<Time, Error> {
        match TimePrecision::parsed(key) {
            Err(e) => Err(e),
            Ok(precision) => match TimeValue::parsed(value) {
                Err(e) => Err(e),
                Ok(value) => Ok(Time { precision, value }),
            },
        }
    }

    /// What `Time::from_str` gives: `precision.value`, with exactly one dot.
    pub open spec fn parsed(raw: Seq<char>) -> Result<Time, Error> {
        let pieces = split_on(raw, '.');
        if pieces.len() != 2 {
            Err(Error::WrongTimeFormat)
        } else {
            Time::from_parts(pieces[0], pieces[1])
        }
    }

    pub fn from_str(raw: String) -> (r: Result<Time, Error>)
        ensures
            r == Time::parsed(raw@),
    {
        let mut e = split_char(raw.as_str(), '.');
        if e.len() != 2 {
            return Err(Error::WrongTimeFormat);
        }
        let value_str = e.pop().unwrap();
        let precision_str = e.pop().unwrap();
        Time::from_key_value(precision_str, value_str)
    }

    pub fn from_key_value(key: String, value: String) -> (r: Result<Time, Error>)
        ensures
            r == Time::from_parts(key@, value@),
    {
        let precision = match TimePrecision::from_str(key) {
            Ok(precision) => precision,
            Err(err) => return Err(err),
        };
        let value = match TimeValue::from_str(value) {
            Ok(value) => value,
            Err(err) => return Err(err),
        };
        Ok(Time { precision, value })
    }
}

/// A time argument `key.value`, with no dot in either part, reads as the key and
/// value given apart.
pub proof fn lemma_time_from_str_is_from_key_value(key: Seq<char>, value: Seq<char>)
    requires
        !key.contains('.'),
        !value.contains('.'),
    ensures
        Time::parsed(key + seq!['.'] + value) == Time::from_parts(key, value),
{
    lemma_split_on_two(key, value, '.');
}

/// A time argument without exactly one dot is refused as badly formed.
pub proof fn lemma_time_needs_one_dot(raw: Seq<char>)
    requires
        count_char(raw, '.') != 1,
    ensures
        Time::parsed(raw) == Err::<Time, Error>(Error::WrongTimeFormat),
{
    lemma_split_on_len(raw, '.');
}

proof fn lemma_time_words()
    ensures
        "latest"@.len() == 6 && "latest"@[0] == 'l',
        "oldest"@.len() == 6 && "oldest"@[0] == 'o',
        "year"@.len() == 4 && "year"@[0] == 'y',
        "quarter"@.len() == 7 && "quarter"@[0] == 'q',
        "month"@.len() == 5 && "month"@[0] == 'm',
        "week"@.len() == 4 && "week"@[0] == 'w',
        "day"@.len() == 3 && "day"@[0] == 'd',
{
    reveal_strlit("latest");
    reveal_strlit("oldest");
    reveal_strlit("year");
    reveal_strlit("quarter");
    reveal_strlit("month");
    reveal_strlit("week");
    reveal_strlit("day");
}

/// `oldest` reads as the first time and `latest` as the last, and no other
/// text does; a number reads as that number.
pub proof fn lemma_time_value_words(raw: Seq<char>)
    ensures
        TimeValue::parsed(raw) == Ok::<TimeValue, Error>(TimeValue::First) <==> raw == "oldest"@,
        TimeValue::parsed(raw) == Ok::<TimeValue, Error>(TimeValue::Last) <==> raw == "latest"@,
        TimeValue::parsed(raw) matches Ok(TimeValue::Value(n)) ==> spec_parse_u32(raw) == Some(n),
        TimeValue::parsed(raw) is Err ==> raw != "oldest"@ && raw != "latest"@ && spec_parse_u32(
            raw,
        ) is None,
{
    lemma_time_words();
}

/// Each precision reads from its own word and from no other text.
pub proof fn lemma_time_precision_words(raw: Seq<char>)
    ensures
        TimePrecision::parsed(raw) == Ok::<TimePrecision, Error>(TimePrecision::Year) <==> raw
            == "year"@,
        TimePrecision::parsed(raw) == Ok::<TimePrecision, Error>(TimePrecision::Quarter) <==> raw
            == "quarter"@,
        TimePrecision::parsed(raw) == Ok::<TimePrecision, Error>(TimePrecision::Month) <==> raw
            == "month"@,
        TimePrecision::parsed(raw) == Ok::<TimePrecision, Error>(TimePrecision::Week) <==> raw
            == "week"@,
        TimePrecision::parsed(raw) == Ok::<TimePrecision, Error>(TimePrecision::Day) <==> raw
            == "day"@,
        TimePrecision::parsed(raw) is Err ==> TimePrecision::parsed(raw) == Err::<
            TimePrecision,
            Error,
        >(Error::WrongTimePrecision),
{
    lemma_time_words();
}

/// A time read from a key and a value has the precision that the key reads
/// as and the time value that the value reads as; it is read exactly when
/// both are, and otherwise the error is the key's, or else the value's.
pub proof fn lemma_time_from_parts_components(key: Seq<char>, value: Seq<char>)
    ensures
        Time::from_parts(key, value) is Ok <==> TimePrecision::parsed(key) is Ok
            && TimeValue::parsed(value) is Ok,
        Time::from_parts(key, value) matches Ok(t) ==> TimePrecision::parsed(key) == Ok::<
            TimePrecision,
            Error,
        >(t.precision) && TimeValue::parsed(value) == Ok::<TimeValue, Error>(t.value),
        TimePrecision::parsed(key) matches Err(e) ==> Time::from_parts(key, value) == Err::<
            Time,
            Error,
        >(e),
        TimePrecision::parsed(key) is Ok ==> (TimeValue::parsed(value) matches Err(e)
            ==> Time::from_parts(key, value) == Err::<Time, Error>(e)),
{
}

/// A time read from `precision.value` is made of the two parts around its
/// only dot, each read on its own.
pub proof fn lemma_time_from_str_components(raw: Seq<char>)
    ensures
        Time::parsed(raw) matches Ok(t) ==> {
            &&& count_char(raw, '.') == 1
            &&& split_on(raw, '.').len() == 2
            &&& TimePrecision::parsed(split_on(raw, '.')[0]) == Ok::<TimePrecision, Error>(
                t.precision,
            )
            &&& TimeValue::parsed(split_on(raw, '.')[1]) == Ok::<TimeValue, Error>(t.value)
        },
{
    lemma_split_on_len(raw, '.');
    let pieces = split_on(raw, '.');
    if pieces.len() == 2 {
        lemma_time_from_parts_components(pieces[0], pieces[1]);
    }
}

/// A leading `+` before a number that does not itself start with one changes
/// nothing.
pub proof fn lemma_parse_u32_plus(s: Seq<char>)
    requires
        s.len() > 0,
        s[0] != '+',
    ensures
        spec_parse_u32(seq!['+'] + s) == spec_parse_u32(s),
{
    let t = seq!['+'] + s;
    assert(t[0] == '+');
    assert(t.drop_first() =~= s);
}

proof fn lemma_digits_value_leading_zero(s: Seq<char>)
    ensures
        digits_value(seq!['0'] + s) == digits_value(s),
    decreases s.len(),
{
    if s.len() == 0 {
        assert(seq!['0'] + s =~= seq!['0']);
        assert(seq!['0'].drop_last() =~= Seq::<char>::empty());
        assert(digits_value(Seq::<char>::empty()) == 0);
        assert(seq!['0'].last() == '0');
        assert(digits_value(seq!['0']) == 0);
    } else {
        lemma_digits_value_leading_zero(s.drop_last());
        assert((seq!['0'] + s).drop_last() =~= seq!['0'] + s.drop_last());
        assert((seq!['0'] + s).last() == s.last());
    }
}

/// A leading zero before a number changes nothing.
pub proof fn lemma_parse_u32_leading_zero(s: Seq<char>)
    requires
        s.len() > 0,
        s[0] != '+',
    ensures
        spec_parse_u32(seq!['0'] + s) == spec_parse_u32(s),
{
    let t = seq!['0'] + s;
    assert(t[0] == '0');
    lemma_digits_value_leading_zero(s);
    assert(all_digits(t) <==> all_digits(s)) by {
        if all_digits(s) {
            assert forall|i: int| 0 <= i < t.len() implies is_digit(#[trigger] t[i]) by {
                if i > 0 {
                    assert(t[i] == s[i - 1]);
                }
            }
        }
        if all_digits(t) {
            assert forall|i: int| 0 <= i < s.len() implies is_digit(#[trigger] s[i]) by {
                assert(t[i + 1] == s[i]);
            }
        }
    }
}

/// One more digit multiplies the number by ten and adds the digit, while the
/// result fits.
pub proof fn lemma_parse_u32_push_digit(s: Seq<char>, c: char)
    requires
        s.len() > 0,
        s[0] != '+',
        spec_parse_u32(s) is Some,
        is_digit(c),
        spec_parse_u32(s).unwrap() * 10 + ((c as int) - ('0' as int)) <= u32::MAX,
    ensures
        spec_parse_u32(s.push(c)) == Some(
            (spec_parse_u32(s).unwrap() * 10 + ((c as int) - ('0' as int))) as u32,
        ),
{
    let t = s.push(c);
    assert(t[0] == s[0]);
    assert(t.drop_last() =~= s);
    assert forall|i: int| 0 <= i < t.len() implies is_digit(#[trigger] t[i]) by {
        if i < s.len() {
            assert(t[i] == s[i]);
        }
    }
}

/// Text that is not a number, `latest` or `oldest` is refused as a time value.
pub proof fn lemma_time_value_refused(raw: Seq<char>)
    requires
        spec_parse_u32(raw) is None,
        raw != "latest"@,
        raw != "oldest"@,
    ensures
        TimeValue::parsed(raw) == Err::<TimeValue, Error>(Error::WrongTimeValue),
{
}

} // verus!
