use vstd::prelude::*;
use vstd::string::*;
use crate::text::{
    chars_of, lemma_split_nonempty, parse_unsigned, parse_unsigned_spec, push_char, split_chars,
    split_spec, views,
};

verus! {

/// Which component of a date or a time an error is about.
#[derive(Debug, Clone, Copy, PartialEq, Eq, Structural)]
pub enum Field {
    Year,
    Month,
    Day,
    Hour,
    Minute,
    Second,
    /// A whole date.
    DatePart,
    /// A whole time, or the time of a date-time.
    TimePart,
}

/// Why a date or a time was rejected.
#[derive(Debug, Clone, Copy, PartialEq, Eq, Structural)]
pub enum DateTimeError {
    /// The text ended before this component.
    Missing(Field),
    /// This component is not an unsigned number of its width.
    InvalidNumber(Field),
    /// More separators than components, in a date or a time.
    TooManyParts(Field),
    /// This component holds a value above its bound.
    OutOfRange(Field, u8),
}

/// The name of a field, as messages spell it.
pub open spec fn field_name(f: Field) -> Seq<char> {
    match f {
        Field::Year => "Year"@,
        Field::Month => "Month"@,
        Field::Day => "Day"@,
        Field::Hour => "Hour"@,
        Field::Minute => "Minute"@,
        Field::Second => "Second"@,
        Field::DatePart => "date"@,
        Field::TimePart => "time"@,
    }
}

/// The largest value a field may hold.
pub open spec fn field_bound(f: Field) -> nat {
    match f {
        Field::Day => 31,
        Field::Month => 12,
        Field::Hour => 23,
        Field::Minute => 59,
        Field::Second => 59,
        _ => 65535,
    }
}

/// The text that describes an error.
pub open spec fn error_text(e: DateTimeError) -> Seq<char> {
    match e {
        DateTimeError::Missing(Field::TimePart) => "Invalid datetime: missing time"@,
        DateTimeError::Missing(f) => field_name(f) + " not found"@,
        DateTimeError::InvalidNumber(f) => "Invalid number for "@ + field_name(f),
        DateTimeError::TooManyParts(Field::DatePart) => "Too many parameters in data"@,
        DateTimeError::TooManyParts(_) => "Too many parameters in time string"@,
        DateTimeError::OutOfRange(f, v) => field_name(f) + " cannot be more than "@
            + decimal_digits(field_bound(f)) + ". Found: "@ + decimal_digits(v as nat),
    }
}

fn field_name_str(f: Field) -> (r: &'static str)
    ensures
        r@ == field_name(f),
{
    match f {
        Field::Year => "Year",
        Field::Month => "Month",
        Field::Day => "Day",
        Field::Hour => "Hour",
        Field::Minute => "Minute",
        Field::Second => "Second",
        Field::DatePart => "date",
        Field::TimePart => "time",
    }
}

fn field_bound_of(f: Field) -> (r: u32)
    ensures
        r == field_bound(f),
{
    match f {
        Field::Day => 31,
        Field::Month => 12,
        Field::Hour => 23,
        Field::Minute => 59,
        Field::Second => 59,
        _ => 65535,
    }
}

impl DateTimeError {
    /// The error in words, such as `Day cannot be more than 31. Found: 40`.
    pub fn message(&self) -> (r: String)
        ensures
            r@ == error_text(*self),
    {
        match *self {
            DateTimeError::Missing(Field::TimePart) => String::from_str(
                "Invalid datetime: missing time",
            ),
            DateTimeError::Missing(f) => {
                let mut s = String::from_str(field_name_str(f));
                s.append(" not found");
                s
            },
            DateTimeError::InvalidNumber(f) => {
                let mut s = String::from_str("Invalid number for ");
                s.append(field_name_str(f));
                s
            },
            DateTimeError::TooManyParts(Field::DatePart) => String::from_str(
                "Too many parameters in data",
            ),
            DateTimeError::TooManyParts(_) => String::from_str("Too many parameters in time string"),
            DateTimeError::OutOfRange(f, v) => {
                let mut s = String::from_str(field_name_str(f));
                s.append(" cannot be more than ");
                let b = field_bound_of(f);
                push_padded(&mut s, b, 0);
                s.append(". Found: ");
                push_padded(&mut s, v as u32, 0);
                assert(padded(b as nat, 0) == decimal_digits(b as nat));
                assert(padded(v as nat, 0) == decimal_digits(v as nat));
                s
            },
        }
    }
}

/// A calendar date as year, month and day.
#[derive(Debug, Clone, Copy, PartialEq, Eq, Structural)]
pub struct Date {
    year: u16,
    month: u8,
    day: u8,
}

/// The plain values of a [`Date`].
#[derive(Debug, Clone, Copy, PartialEq, Eq, Structural)]
pub struct DateView {
    pub year: u16,
    pub month: u8,
    pub day: u8,
}

/// A time of day as hour, minute and second.
#[derive(Debug, Clone, Copy, PartialEq, Eq, Structural)]
pub struct Time {
    hour: u8,
    minute: u8,
    second: u8,
}

/// The plain values of a [`Time`].
#[derive(Debug, Clone, Copy, PartialEq, Eq, Structural)]
pub struct TimeView {
    pub hour: u8,
    pub minute: u8,
    pub second: u8,
}

impl View for Date {
    type V = DateView;

    closed spec fn view(&self) -> DateView {
        DateView { year: self.year, month: self.month, day: self.day }
    }
}

impl View for Time {
    type V = TimeView;

    closed spec fn view(&self) -> TimeView {
        TimeView { hour: self.hour, minute: self.minute, second: self.second }
    }
}

pub open spec fn date_result_view(r: Result<Date, DateTimeError>) -> Result<DateView, DateTimeError> {
    match r {
        Ok(d) => Ok(d@),
        Err(e) => Err(e),
    }
}

pub open spec fn time_result_view(r: Result<Time, DateTimeError>) -> Result<TimeView, DateTimeError> {
    match r {
        Ok(t) => Ok(t@),
        Err(e) => Err(e),
    }
}

/// The bounds a date is held to: a day up to 31 and a month up to 12.
pub open spec fn check_date(year: u16, month: u8, day: u8) -> Result<DateView, DateTimeError> {
    if day > 31 {
        Err(DateTimeError::OutOfRange(Field::Day, day))
    } else if month > 12 {
        Err(DateTimeError::OutOfRange(Field::Month, month))
    } else {
        Ok(DateView { year, month, day })
    }
}

/// The bounds a time is held to: hour up to 23, minute and second up to 59.
pub open spec fn check_time(hour: u8, minute: u8, second: u8) -> Result<TimeView, DateTimeError> {
    if hour > 23 {
        Err(DateTimeError::OutOfRange(Field::Hour, hour))
    } else if minute > 59 {
        Err(DateTimeError::OutOfRange(Field::Minute, minute))
    } else if second > 59 {
        Err(DateTimeError::OutOfRange(Field::Second, second))
    } else {
        Ok(TimeView { hour, minute, second })
    }
}

/// Reading three components separated by `sep`, each an unsigned number up to its bound.
/// `names` says which field each component is, and what the whole is.
pub open spec fn read_triple(
    s: Seq<char>,
    sep: char,
    max0: nat,
    names: (Field, Field, Field, Field),
) -> Result<(nat, nat, nat), DateTimeError> {
    let p = split_spec(s, sep);
    match parse_unsigned_spec(p[0], max0) {
        None => Err(DateTimeError::InvalidNumber(names.0)),
        Some(a) => if p.len() < 2 {
            Err(DateTimeError::Missing(names.1))
        } else {
            match parse_unsigned_spec(p[1], 255) {
                None => Err(DateTimeError::InvalidNumber(names.1)),
                Some(b) => if p.len() < 3 {
                    Err(DateTimeError::Missing(names.2))
                } else {
                    match parse_unsigned_spec(p[2], 255) {
                        None => Err(DateTimeError::InvalidNumber(names.2)),
                        Some(c) => if p.len() > 3 {
                            Err(DateTimeError::TooManyParts(names.3))
                        } else {
                            Ok((a, b, c))
                        },
                    }
                },
            }
        },
    }
}

/// What `YYYY-MM-DD` text denotes.
pub open spec fn date_text_spec(s: Seq<char>) -> Result<DateView, DateTimeError> {
    match read_triple(s, '-', 65535, (Field::Year, Field::Month, Field::Day, Field::DatePart)) {
        Err(e) => Err(e),
        Ok((y, m, d)) => check_date(y as u16, m as u8, d as u8),
    }
}

/// What `HH:MM:SS` text denotes.
pub open spec fn time_text_spec(s: Seq<char>) -> Result<TimeView, DateTimeError> {
    match read_triple(s, ':', 255, (Field::Hour, Field::Minute, Field::Second, Field::TimePart)) {
        Err(e) => Err(e),
        Ok((h, m, x)) => check_time(h as u8, m as u8, x as u8),
    }
}

/// The part of an ISO date-time that is read: its first 19 characters.
pub open spec fn iso_trim(s: Seq<char>) -> Seq<char> {
    if s.len() >= 19 {
        s.take(19)
    } else {
        s
    }
}

/// What an ISO `YYYY-MM-DDTHH:MM:SS` date-time denotes; anything after the seconds is ignored.
pub open spec fn iso_spec(s: Seq<char>) -> Result<(DateView, TimeView), DateTimeError> {
    let p = split_spec(iso_trim(s), 'T');
    if p.len() < 2 {
        Err(DateTimeError::Missing(Field::TimePart))
    } else {
        match date_text_spec(p[0]) {
            Err(e) => Err(e),
            Ok(d) => match time_text_spec(p[1]) {
                Err(e) => Err(e),
                Ok(t) => Ok((d, t)),
            },
        }
    }
}

/// The digit character for `d < 10`.
pub open spec fn digit_char(d: nat) -> char {
    ((d + 48) as u8) as char
}

/// The decimal digits of `n`, without leading zeros.
pub open spec fn decimal_digits(n: nat) -> Seq<char>
    decreases n,
{
    if n < 10 {
        seq![digit_char(n)]
    } else {
        decimal_digits(n / 10).push(digit_char(n % 10))
    }
}

/// The decimal digits of `n`, with zeros in front up to `width` characters.
pub open spec fn padded(n: nat, width: nat) -> Seq<char> {
    let d = decimal_digits(n);
    if d.len() < width {
        Seq::new((width - d.len()) as nat, |i: int| '0') + d
    } else {
        d
    }
}

fn digit_of(d: u32) -> (r: char)
    requires
        d < 10,
    ensures
        r == digit_char(d as nat),
{
    ((d as u8) + 48u8) as char
}

fn decimal_chars(n: u32) -> (r: Vec<char>)
    ensures
        r@ == decimal_digits(n as nat),
    decreases n,
{
    if n < 10 {
        let mut v: Vec<char> = Vec::new();
        v.push(digit_of(n));
        assert(v@ =~= decimal_digits(n as nat));
        v
    } else {
        let mut v = decimal_chars(n / 10);
        v.push(digit_of(n % 10));
        v
    }
}

/// Appends `n` in decimal, zero-padded to `width`.
pub(crate) fn push_padded(s: &mut String, n: u32, width: usize)
    ensures
        final(s)@ == old(s)@ + padded(n as nat, width as nat),
{
    let d = decimal_chars(n);
    let ghost start = s@;
    let mut k: usize = d.len();
    while k < width
        invariant
            d@ == decimal_digits(n as nat),
            d.len() <= k <= width || (k == d.len() && width < k),
            s@ == start + Seq::new((k - d.len()) as nat, |i: int| '0'),
        decreases width - k,
    {
        push_char(s, '0');
        k += 1;
        assert(s@ =~= start + Seq::new((k - d.len()) as nat, |i: int| '0'));
    }
    let ghost mid = s@;
    let mut i: usize = 0;
    while i < d.len()
        invariant
            i <= d.len(),
            s@ == mid + d@.take(i as int),
        decreases d.len() - i,
    {
        push_char(s, d[i]);
        i += 1;
        assert(s@ =~= mid + d@.take(i as int));
    }
    assert(d@.take(d.len() as int) =~= d@);
    if d.len() < width {
        assert(s@ =~= start + padded(n as nat, width as nat));
    } else {
        assert(Seq::new((k - d.len()) as nat, |i: int| '0') =~= Seq::<char>::empty());
        assert(s@ =~= start + padded(n as nat, width as nat));
    }
}

/// Reads three components separated by `sep`; see `read_triple`.
fn read_triple_exec(chars: &Vec<char>, sep: char, max0: u32, names: (Field, Field, Field, Field)) -> (r: Result<
    (u32, u32, u32),
    DateTimeError,
>)
    ensures
        match r {
            Ok((a, b, c)) => read_triple(chars@, sep, max0 as nat, names) == Ok::<
                (nat, nat, nat),
                DateTimeError,
            >((a as nat, b as nat, c as nat)) && b <= 255 && c <= 255 && a <= max0,
            Err(e) => read_triple(chars@, sep, max0 as nat, names) == Err::<
                (nat, nat, nat),
                DateTimeError,
            >(e),
        },
{
    let p = split_chars(chars, sep);
    proof {
        lemma_split_nonempty(chars@, sep);
        assert(views(p@).len() == p@.len());
    }
    assert(views(p@)[0] == p@[0]@);
    let a = match parse_unsigned(&p[0], max0) {
        None => {
            return Err(DateTimeError::InvalidNumber(names.0));
        },
        Some(a) => a,
    };
    if p.len() < 2 {
        return Err(DateTimeError::Missing(names.1));
    }
    assert(views(p@)[1] == p@[1]@);
    let b = match parse_unsigned(&p[1], 255) {
        None => {
            return Err(DateTimeError::InvalidNumber(names.1));
        },
        Some(b) => b,
    };
    if p.len() < 3 {
        return Err(DateTimeError::Missing(names.2));
    }
    assert(views(p@)[2] == p@[2]@);
    let c = match parse_unsigned(&p[2], 255) {
        None => {
            return Err(DateTimeError::InvalidNumber(names.2));
        },
        Some(c) => c,
    };
    if p.len() > 3 {
        return Err(DateTimeError::TooManyParts(names.3));
    }
    Ok((a, b, c))
}

impl Date {
    /// A date, provided the day is at most 31 and the month at most 12.
    pub fn new(year: u16, month: u8, day: u8) -> (r: Result<Date, DateTimeError>)
        ensures
            date_result_view(r) == check_date(year, month, day),
    {
        if day > 31 {
            return Err(DateTimeError::OutOfRange(Field::Day, day));
        }
        if month > 12 {
            return Err(DateTimeError::OutOfRange(Field::Month, month));
        }
        Ok(Date { year, month, day })
    }

    pub fn year(&self) -> (r: u16)
        ensures
            r == self@.year,
    {
        self.year
    }

    pub fn month(&self) -> (r: u8)
        ensures
            r == self@.month,
    {
        self.month
    }

    pub fn day(&self) -> (r: u8)
        ensures
            r == self@.day,
    {
        self.day
    }

    /// The date as `YYYY-MM-DD`, each component zero-padded.
    pub fn to_yyyy_mm_dd(&self) -> (r: String)
        ensures
            r@ == padded(self@.year as nat, 4) + seq!['-'] + padded(self@.month as nat, 2)
                + seq!['-'] + padded(self@.day as nat, 2),
    {
        let mut s = String::new();
        push_padded(&mut s, self.year as u32, 4);
        push_char(&mut s, '-');
        push_padded(&mut s, self.month as u32, 2);
        push_char(&mut s, '-');
        push_padded(&mut s, self.day as u32, 2);
        s
    }

    /// Reads a `YYYY-MM-DD` date.
    pub fn from_yyyy_mm_dd(date: &str) -> (r: Result<Date, DateTimeError>)
        ensures
            date_result_view(r) == date_text_spec(date@),
    {
        Date::from_chars(&chars_of(date))
    }

    fn from_chars(date: &Vec<char>) -> (r: Result<Date, DateTimeError>)
        ensures
            date_result_view(r) == date_text_spec(date@),
    {
        match read_triple_exec(date, '-', 65535, (Field::Year, Field::Month, Field::Day, Field::DatePart)) {
            Err(e) => Err(e),
            Ok((y, m, d)) => Date::new(y as u16, m as u8, d as u8),
        }
    }
}

impl Time {
    /// A time, provided the hour is at most 23 and minute and second at most 59.
    pub fn new(hour: u8, minute: u8, second: u8) -> (r: Result<Time, DateTimeError>)
        ensures
            time_result_view(r) == check_time(hour, minute, second),
    {
        if hour > 23 {
            return Err(DateTimeError::OutOfRange(Field::Hour, hour));
        }
        if minute > 59 {
            return Err(DateTimeError::OutOfRange(Field::Minute, minute));
        }
        if second > 59 {
            return Err(DateTimeError::OutOfRange(Field::Second, second));
        }
        Ok(Time { hour, minute, second })
    }

    pub fn hour(&self) -> (r: u8)
        ensures
            r == self@.hour,
    {
        self.hour
    }

    pub fn minute(&self) -> (r: u8)
        ensures
            r == self@.minute,
    {
        self.minute
    }

    pub fn second(&self) -> (r: u8)
        ensures
            r == self@.second,
    {
        self.second
    }

    /// The time as `HH:MM:SS`, each component zero-padded.
    pub fn to_hh_mm_ss(&self) -> (r: String)
        ensures
            r@ == padded(self@.hour as nat, 2) + seq![':'] + padded(self@.minute as nat, 2)
                + seq![':'] + padded(self@.second as nat, 2),
    {
        let mut s = String::new();
        push_padded(&mut s, self.hour as u32, 2);
        push_char(&mut s, ':');
        push_padded(&mut s, self.minute as u32, 2);
        push_char(&mut s, ':');
        push_padded(&mut s, self.second as u32, 2);
        s
    }

    /// Reads an `HH:MM:SS` time.
    pub fn from_hh_mm_ss(time: &str) -> (r: Result<Time, DateTimeError>)
        ensures
            time_result_view(r) == time_text_spec(time@),
    {
        Time::from_chars(&chars_of(time))
    }

    fn from_chars(time: &Vec<char>) -> (r: Result<Time, DateTimeError>)
        ensures
            time_result_view(r) == time_text_spec(time@),
    {
        match read_triple_exec(time, ':', 255, (Field::Hour, Field::Minute, Field::Second, Field::TimePart)) {
            Err(e) => Err(e),
            Ok((h, m, x)) => Time::new(h as u8, m as u8, x as u8),
        }
    }
}

/// Reads an ISO date-time such as `2025-10-04T13:45:00`: the date before the first `T`,
/// the time after it, looking at the first 19 characters only (so a zone suffix is ignored).
pub fn split_iso_datetime(iso: &str) -> (r: Result<(Date, Time), DateTimeError>)
    ensures
        match r {
            Ok((d, t)) => iso_spec(iso@) == Ok::<(DateView, TimeView), DateTimeError>((d@, t@)),
            Err(e) => iso_spec(iso@) == Err::<(DateView, TimeView), DateTimeError>(e),
        },
{
    let all = chars_of(iso);
    let mut trimmed: Vec<char> = Vec::new();
    let n: usize = if all.len() >= 19 { 19 } else { all.len() };
    let mut i: usize = 0;
    while i < n
        invariant
            n <= all.len(),
            i <= n,
            trimmed@ == all@.take(i as int),
        decreases n - i,
    {
        trimmed.push(all[i]);
        i += 1;
        assert(trimmed@ =~= all@.take(i as int));
    }
    assert(trimmed@ =~= iso_trim(iso@));
    let p = split_chars(&trimmed, 'T');
    proof {
        lemma_split_nonempty(trimmed@, 'T');
        assert(views(p@).len() == p@.len());
    }
    if p.len() < 2 {
        return Err(DateTimeError::Missing(Field::TimePart));
    }
    assert(views(p@)[0] == p@[0]@);
    assert(views(p@)[1] == p@[1]@);
    let d = match Date::from_chars(&p[0]) {
        Err(e) => {
            return Err(e);
        },
        Ok(d) => d,
    };
    let t = match Time::from_chars(&p[1]) {
        Err(e) => {
            return Err(e);
        },
        Ok(t) => t,
    };
    Ok((d, t))
}

} // verus!
