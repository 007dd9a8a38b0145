use vstd::prelude::*;
use vstd::string::*;
use crate::text::{chars_of, concat};

verus! {

pub open spec fn is_upper(c: char) -> bool {
    'A' <= c && c <= 'Z'
}

pub open spec fn is_digit_char(c: char) -> bool {
    '0' <= c && c <= '9'
}

/// An airport or city code: at most three upper-case ASCII letters.
pub open spec fn valid_iata(s: Seq<char>) -> bool {
    s.len() <= 3 && forall|i: int| 0 <= i < s.len() ==> is_upper(#[trigger] s[i])
}

/// A railway station code: upper-case ASCII letters and digits.
pub open spec fn valid_station(s: Seq<char>) -> bool {
    forall|i: int| 0 <= i < s.len() ==> is_upper(#[trigger] s[i]) || is_digit_char(s[i])
}

/// An IATA location code such as `DEL`.
#[derive(Debug, Clone, PartialEq, Eq)]
pub struct IataCode(String);

/// A railway station code such as `NDLS`.
#[derive(Debug, Clone, PartialEq, Eq)]
pub struct Station(String);

impl View for IataCode {
    type V = Seq<char>;

    closed spec fn view(&self) -> Seq<char> {
        self.0@
    }
}

impl View for Station {
    type V = Seq<char>;

    closed spec fn view(&self) -> Seq<char> {
        self.0@
    }
}

fn all_upper(s: &Vec<char>, allow_digits: bool) -> (r: bool)
    ensures
        r == forall|i: int|
            0 <= i < s@.len() ==> is_upper(#[trigger] s@[i]) || (allow_digits && is_digit_char(
                s@[i],
            )),
{
    let mut i: usize = 0;
    while i < s.len()
        invariant
            i <= s.len(),
            forall|j: int|
                0 <= j < i ==> is_upper(#[trigger] s@[j]) || (allow_digits && is_digit_char(
                    s@[j],
                )),
        decreases s.len() - i,
    {
        let c = s[i];
        if !(('A' <= c && c <= 'Z') || (allow_digits && '0' <= c && c <= '9')) {
            return false;
        }
        i += 1;
    }
    true
}

impl IataCode {
    /// The code, provided it is at most three upper-case ASCII letters; otherwise a message
    /// that names it.
    pub fn new(code: String) -> (r: Result<IataCode, String>)
        ensures
            r is Ok <==> valid_iata(code@),
            r matches Ok(c) ==> c@ == code@,
            r matches Err(m) ==> m@ == "Invalid ITATA code: "@ + code@,
    {
        let chars = chars_of(code.as_str());
        if chars.len() <= 3 && all_upper(&chars, false) {
            Ok(IataCode(code))
        } else {
            Err(concat("Invalid ITATA code: ", code.as_str()))
        }
    }

    pub fn as_str(&self) -> (r: &str)
        ensures
            r@ == self@,
    {
        self.0.as_str()
    }
}

impl Station {
    /// The code, provided it holds only upper-case ASCII letters and digits; otherwise a
    /// message that names it.
    pub fn new(code: String) -> (r: Result<Station, String>)
        ensures
            r is Ok <==> valid_station(code@),
            r matches Ok(c) ==> c@ == code@,
            r matches Err(m) ==> m@ == "Invalid Station code: "@ + code@,
    {
        let chars = chars_of(code.as_str());
        if all_upper(&chars, true) {
            Ok(Station(code))
        } else {
            Err(concat("Invalid Station code: ", code.as_str()))
        }
    }

    pub fn as_str(&self) -> (r: &str)
        ensures
            r@ == self@,
    {
        self.0.as_str()
    }
}

/// The currencies that prices are quoted in.
#[derive(Debug, Clone, Copy, PartialEq, Eq, Structural)]
pub enum CurrencyCode {
    Inr,
    Usd,
    Eur,
}

/// What `str::to_uppercase` makes of a string.
pub uninterp spec fn upper_of(s: Seq<char>) -> Seq<char>;

/// Relies on `str::to_uppercase`: the result depends on the characters alone, and an empty
/// string stays empty.
#[verifier::external_body]
fn to_uppercase(s: &str) -> (r: String)
    ensures
        r@ == upper_of(s@),
        s@.len() == 0 ==> r@.len() == 0,
{
    s.to_uppercase()
}

/// The currency whose upper-case code is exactly `s`.
pub open spec fn currency_for(s: Seq<char>) -> Option<CurrencyCode> {
    if s == seq!['U', 'S', 'D'] {
        Some(CurrencyCode::Usd)
    } else if s == seq!['I', 'N', 'R'] {
        Some(CurrencyCode::Inr)
    } else if s == seq!['E', 'U', 'R'] {
        Some(CurrencyCode::Eur)
    } else {
        None
    }
}

impl CurrencyCode {
    /// The currency named by an already upper-cased code.
    pub fn from_upper(code: &str) -> (r: Option<CurrencyCode>)
        ensures
            r == currency_for(code@),
    {
        let c = chars_of(code);
        if c.len() != 3 {
            return None;
        }
        if c[0] == 'U' && c[1] == 'S' && c[2] == 'D' {
            assert(c@ =~= seq!['U', 'S', 'D']);
            Some(CurrencyCode::Usd)
        } else if c[0] == 'I' && c[1] == 'N' && c[2] == 'R' {
            assert(c@ =~= seq!['I', 'N', 'R']);
            Some(CurrencyCode::Inr)
        } else if c[0] == 'E' && c[1] == 'U' && c[2] == 'R' {
            assert(c@ =~= seq!['E', 'U', 'R']);
            Some(CurrencyCode::Eur)
        } else {
            None
        }
    }

    /// The currency named by `code`, in any letter case.
    pub fn parse(code: &str) -> (r: Option<CurrencyCode>)
        ensures
            r == currency_for(upper_of(code@)),
    {
        let upper = to_uppercase(code);
        CurrencyCode::from_upper(upper.as_str())
    }

    /// The three-letter upper-case code.
    pub fn code(&self) -> (r: &'static str)
        ensures
            currency_for(r@) == Some(*self),
    {
        proof {
            reveal_strlit("INR");
            reveal_strlit("USD");
            reveal_strlit("EUR");
        }
        match self {
            CurrencyCode::Inr => {
                assert("INR"@ =~= seq!['I', 'N', 'R']);
                "INR"
            },
            CurrencyCode::Usd => {
                assert("USD"@ =~= seq!['U', 'S', 'D']);
                "USD"
            },
            CurrencyCode::Eur => {
                assert("EUR"@ =~= seq!['E', 'U', 'R']);
                "EUR"
            },
        }
    }
}

} // verus!
