use vstd::prelude::*;
use vstd::string::*;
use crate::codes::{IataCode, Station};
use crate::datetime::{
    decimal_digits, iso_spec, padded, push_padded, split_iso_datetime, Date, DateTimeError,
    DateView, Time, TimeView,
};

verus! {

/// A train running between two stations.
#[derive(Debug)]
pub struct Train {
    pub train_number: String,
    pub train_name: String,
    pub from_sta: String,
    pub to_sta: String,
    pub run_days: Vec<String>,
    pub train_type: String,
}

/// A train with its route.
#[derive(Debug)]
pub struct TrainDetails {
    pub train_number: String,
    pub train_name: String,
    pub station_list: Vec<StationArrival>,
}

/// One stop on a train's route.
#[derive(Debug)]
pub struct StationArrival {
    pub station_code: String,
    pub station_name: String,
    pub arrival_time: String,
    pub departure_time: String,
    pub halt_time: String,
}

/// Seat availability of a train in one class and quota.
#[derive(Debug)]
pub struct SeatAvailability {
    pub train_number: String,
    pub class: String,
    pub quota: String,
    pub availability: Vec<AvailabilityDetail>,
}

/// Availability on one date.
#[derive(Debug)]
pub struct AvailabilityDetail {
    pub date: String,
    pub status: String,
}

/// A place worth visiting, with a picture of it if one was found.
#[derive(Debug)]
pub struct Sites {
    pub location: String,
    pub description: String,
    pub image_url: Option<String>,
}

/// The departure and arrival instants of one leg of a flight offer, as provided.
#[derive(Debug)]
pub struct Segment {
    pub departure_at: String,
    pub arrival_at: String,
}

/// When a flight leaves and arrives.
#[derive(Debug, Clone, Copy, PartialEq, Eq, Structural)]
pub struct FlightTimes {
    pub departure_date: Date,
    pub departure_time: Time,
    pub arrival_date: Date,
    pub arrival_time: Time,
}

/// A hotel's postal address, as provided.
#[derive(Debug)]
pub struct Address {
    pub lines: Option<Vec<String>>,
    pub city_name: Option<String>,
    pub country_code: Option<String>,
}

pub const FLIGHT_OFFERS_URL: &'static str = "https://test.api.amadeus.com/v2/shopping/flight-offers";

pub const HOTEL_OFFERS_URL: &'static str = "https://test.api.amadeus.com/v3/shopping/hotel-offers";

pub const RAIL_API: &'static str = "https://irctc1.p.rapidapi.com/api";

pub const PLACE_PHOTO_URL: &'static str = "https://maps.googleapis.com/maps/api/place/photo";

/// The flight-offer query for a route, a date, a party size and a currency.
pub open spec fn flights_url_spec(
    source: Seq<char>,
    destination: Seq<char>,
    departure: Seq<char>,
    adults: nat,
    currency: Seq<char>,
) -> Seq<char> {
    FLIGHT_OFFERS_URL@ + "?originLocationCode="@ + source + "&destinationLocationCode="@
        + destination + "&departureDate="@ + departure + "&adults="@ + decimal_digits(adults)
        + "&currencyCode="@ + currency
}

/// The date as `YYYY-MM-DD`.
pub open spec fn date_text(d: DateView) -> Seq<char> {
    padded(d.year as nat, 4) + seq!['-'] + padded(d.month as nat, 2) + seq!['-'] + padded(
        d.day as nat,
        2,
    )
}

/// The flight-offer query URL.
pub fn flights_url(
    source: &IataCode,
    destination: &IataCode,
    least_departure: &Date,
    adult_count: u8,
    currency_code: &str,
) -> (r: String)
    ensures
        r@ == flights_url_spec(
            source@,
            destination@,
            date_text(least_departure@),
            adult_count as nat,
            currency_code@,
        ),
{
    let departure = least_departure.to_yyyy_mm_dd();
    let mut s = String::from_str(FLIGHT_OFFERS_URL);
    s.append("?originLocationCode=");
    s.append(source.as_str());
    s.append("&destinationLocationCode=");
    s.append(destination.as_str());
    s.append("&departureDate=");
    s.append(departure.as_str());
    s.append("&adults=");
    push_padded(&mut s, adult_count as u32, 0);
    proof {
        assert(padded(adult_count as nat, 0) == decimal_digits(adult_count as nat));
    }
    s.append("&currencyCode=");
    s.append(currency_code);
    assert(s@ =~= flights_url_spec(
        source@,
        destination@,
        date_text(least_departure@),
        adult_count as nat,
        currency_code@,
    ));
    s
}

/// The hotel-offer query URL for a city and a currency.
pub fn hotels_url(city_code: &IataCode, currency_code: &str) -> (r: String)
    ensures
        r@ == HOTEL_OFFERS_URL@ + "?cityCode="@ + city_code@ + "&currencyCode="@ + currency_code@,
{
    let mut s = String::from_str(HOTEL_OFFERS_URL);
    s.append("?cityCode=");
    s.append(city_code.as_str());
    s.append("&currencyCode=");
    s.append(currency_code);
    s
}

/// The query for trains between two stations on a date.
pub fn trains_between_url(source: &Station, destination: &Station, date: &Date) -> (r: String)
    ensures
        r@ == RAIL_API@ + "/v3/trainBetweenStations?fromStationCode="@ + source@
            + "&toStationCode="@ + destination@ + "&dateOfJourney="@ + date_text(date@),
{
    let d = date.to_yyyy_mm_dd();
    let mut s = String::from_str(RAIL_API);
    s.append("/v3/trainBetweenStations?fromStationCode=");
    s.append(source.as_str());
    s.append("&toStationCode=");
    s.append(destination.as_str());
    s.append("&dateOfJourney=");
    s.append(d.as_str());
    s
}

/// The query for a train's details.
pub fn train_details_url(train_number: &str) -> (r: String)
    ensures
        r@ == RAIL_API@ + "/v1/getTrainDetails?trainNo="@ + train_number@,
{
    let mut s = String::from_str(RAIL_API);
    s.append("/v1/getTrainDetails?trainNo=");
    s.append(train_number);
    s
}

/// The query for seats on a train between two stations on a date, in a class and quota.
pub fn seats_url(
    train_number: &str,
    from_station: &Station,
    to_station: &Station,
    date: &Date,
    class: &str,
    quota: &str,
) -> (r: String)
    ensures
        r@ == RAIL_API@ + "/v1/checkSeatAvailability?classCode="@ + class@ + "&quotaCode="@
            + quota@ + "&trainNo="@ + train_number@ + "&dateOfJourney="@ + date_text(date@)
            + "&fromStationCode="@ + from_station@ + "&toStationCode="@ + to_station@,
{
    let d = date.to_yyyy_mm_dd();
    let mut s = String::from_str(RAIL_API);
    s.append("/v1/checkSeatAvailability?classCode=");
    s.append(class);
    s.append("&quotaCode=");
    s.append(quota);
    s.append("&trainNo=");
    s.append(train_number);
    s.append("&dateOfJourney=");
    s.append(d.as_str());
    s.append("&fromStationCode=");
    s.append(from_station.as_str());
    s.append("&toStationCode=");
    s.append(to_station.as_str());
    s
}

/// The seat availability of a train, from the per-date statuses reported for it.
pub fn seat_availability(
    train_number: &str,
    class: &str,
    quota: &str,
    availability: Vec<AvailabilityDetail>,
) -> (r: SeatAvailability)
    ensures
        r.train_number@ == train_number@,
        r.class@ == class@,
        r.quota@ == quota@,
        r.availability@ == availability@,
{
    SeatAvailability {
        train_number: String::from_str(train_number),
        class: String::from_str(class),
        quota: String::from_str(quota),
        availability,
    }
}

/// The URL of a place photo of at most 1600 pixels' width.
pub fn photo_url(reference: &str, key: &str) -> (r: String)
    ensures
        r@ == PLACE_PHOTO_URL@ + "?maxwidth=1600&photo_reference="@ + reference@ + "&key="@
            + key@,
{
    let mut s = String::from_str(PLACE_PHOTO_URL);
    s.append("?maxwidth=1600&photo_reference=");
    s.append(reference);
    s.append("&key=");
    s.append(key);
    s
}

/// The photo chosen for a place search: the last photo of the first result that has any.
pub open spec fn photo_choice(results: Seq<Option<Seq<Seq<char>>>>) -> Option<Seq<char>>
    decreases results.len(),
{
    if results.len() == 0 {
        None
    } else {
        match results[0] {
            Some(p) if p.len() > 0 => Some(p.last()),
            _ => photo_choice(results.drop_first()),
        }
    }
}

pub open spec fn photo_views(results: Seq<Option<Vec<String>>>) -> Seq<Option<Seq<Seq<char>>>> {
    results.map_values(
        |r: Option<Vec<String>>|
            match r {
                Some(v) => Some(v@.map_values(|s: String| s@)),
                None => None,
            },
    )
}

/// The photo reference to show for a place, given each search result's photo references.
pub fn first_photo_reference(results: &Vec<Option<Vec<String>>>) -> (r: Option<String>)
    ensures
        match r {
            Some(s) => photo_choice(photo_views(results@)) == Some(s@),
            None => photo_choice(photo_views(results@)) is None,
        },
{
    let ghost rv = photo_views(results@);
    assert(rv.subrange(0, rv.len() as int) =~= rv);
    let mut i: usize = 0;
    while i < results.len()
        invariant
            i <= results@.len(),
            rv == photo_views(results@),
            photo_choice(rv) == photo_choice(rv.subrange(i as int, rv.len() as int)),
        decreases results.len() - i,
    {
        let ghost rest = rv.subrange(i as int, rv.len() as int);
        assert(rest.drop_first() =~= rv.subrange(i + 1, rv.len() as int));
        assert(rest[0] == rv[i as int]);
        if let Some(p) = &results[i] {
            if p.len() > 0 {
                let s = p[p.len() - 1].clone();
                assert(rv[i as int] == Some(p@.map_values(|s: String| s@)));
                return Some(s);
            }
        }
        i += 1;
    }
    assert(rv.subrange(i as int, rv.len() as int) =~= Seq::<Option<Seq<Seq<char>>>>::empty());
    None
}

/// The pieces of `s` with `sep` between each two.
pub open spec fn join(s: Seq<Seq<char>>, sep: Seq<char>) -> Seq<char>
    decreases s.len(),
{
    if s.len() == 0 {
        Seq::empty()
    } else if s.len() == 1 {
        s[0]
    } else {
        join(s.drop_last(), sep) + sep + s.last()
    }
}

fn join_strings(items: &Vec<String>, sep: &str) -> (r: String)
    ensures
        r@ == join(items@.map_values(|s: String| s@), sep@),
{
    let ghost v = items@.map_values(|s: String| s@);
    let mut r = String::new();
    let mut i: usize = 0;
    while i < items.len()
        invariant
            i <= items@.len(),
            v == items@.map_values(|s: String| s@),
            r@ == join(v.take(i as int), sep@),
        decreases items.len() - i,
    {
        let ghost t = v.take(i + 1);
        assert(t.drop_last() =~= v.take(i as int));
        assert(t.last() == items@[i as int]@);
        if i > 0 {
            r.append(sep);
        } else {
            assert(v.take(0) =~= Seq::<Seq<char>>::empty());
        }
        r.append(items[i].as_str());
        i += 1;
    }
    assert(v.take(items@.len() as int) =~= v);
    r
}

/// The one-line form of an address: its lines, its city and its country, those that are
/// given, separated by `, `.
pub open spec fn address_parts(
    lines: Option<Seq<Seq<char>>>,
    city: Option<Seq<char>>,
    country: Option<Seq<char>>,
) -> Seq<Seq<char>> {
    let a = match lines {
        Some(l) if l.len() > 0 => seq![join(l, ", "@)],
        _ => Seq::empty(),
    };
    let b = match city {
        Some(c) => a.push(c),
        None => a,
    };
    match country {
        Some(c) => b.push(c),
        None => b,
    }
}

pub open spec fn opt_view(o: Option<String>) -> Option<Seq<char>> {
    match o {
        Some(s) => Some(s@),
        None => None,
    }
}

pub open spec fn lines_view(o: Option<Vec<String>>) -> Option<Seq<Seq<char>>> {
    match o {
        Some(v) => Some(v@.map_values(|s: String| s@)),
        None => None,
    }
}

/// The address on one line; an address that is not given is the empty line.
pub fn address_line(address: &Option<Address>) -> (r: String)
    ensures
        match address {
            Some(a) => r@ == join(
                address_parts(lines_view(a.lines), opt_view(a.city_name), opt_view(a.country_code)),
                ", "@,
            ),
            None => r@.len() == 0,
        },
{
    match address {
        None => String::new(),
        Some(a) => {
            let mut parts: Vec<String> = Vec::new();
            if let Some(lines) = &a.lines {
                if lines.len() > 0 {
                    parts.push(join_strings(lines, ", "));
                }
            }
            if let Some(city) = &a.city_name {
                parts.push(city.clone());
            }
            if let Some(cc) = &a.country_code {
                parts.push(cc.clone());
            }
            assert(parts@.map_values(|s: String| s@) =~= address_parts(
                lines_view(a.lines),
                opt_view(a.city_name),
                opt_view(a.country_code),
            ));
            join_strings(&parts, ", ")
        },
    }
}

/// What the first itinerary of a flight offer says of its times: nothing when the offer has
/// no itinerary or its first itinerary no leg; else the departure of its first leg and the
/// arrival of its last.
pub open spec fn flight_times_spec(itineraries: Seq<Seq<(Seq<char>, Seq<char>)>>) -> Result<
    Option<(DateView, TimeView, DateView, TimeView)>,
    DateTimeError,
> {
    if itineraries.len() == 0 || itineraries[0].len() == 0 {
        Ok(None)
    } else {
        let legs = itineraries[0];
        match iso_spec(legs[0].0) {
            Err(e) => Err(e),
            Ok((dd, dt)) => match iso_spec(legs.last().1) {
                Err(e) => Err(e),
                Ok((ad, at)) => Ok(Some((dd, dt, ad, at))),
            },
        }
    }
}

pub open spec fn itinerary_views(v: Seq<Vec<Segment>>) -> Seq<Seq<(Seq<char>, Seq<char>)>> {
    v.map_values(
        |legs: Vec<Segment>| legs@.map_values(|g: Segment| (g.departure_at@, g.arrival_at@)),
    )
}

/// The departure and arrival of a flight offer, from its itineraries.
pub fn flight_times(itineraries: &Vec<Vec<Segment>>) -> (r: Result<Option<FlightTimes>, DateTimeError>)
    ensures
        match r {
            Ok(Some(t)) => flight_times_spec(itinerary_views(itineraries@)) == Ok::<
                Option<(DateView, TimeView, DateView, TimeView)>,
                DateTimeError,
            >(Some((t.departure_date@, t.departure_time@, t.arrival_date@, t.arrival_time@))),
            Ok(None) => flight_times_spec(itinerary_views(itineraries@)) == Ok::<
                Option<(DateView, TimeView, DateView, TimeView)>,
                DateTimeError,
            >(None),
            Err(e) => flight_times_spec(itinerary_views(itineraries@)) == Err::<
                Option<(DateView, TimeView, DateView, TimeView)>,
                DateTimeError,
            >(e),
        },
{
    let ghost iv = itinerary_views(itineraries@);
    if itineraries.len() == 0 {
        return Ok(None);
    }
    let legs = &itineraries[0];
    assert(iv[0] == legs@.map_values(|g: Segment| (g.departure_at@, g.arrival_at@)));
    if legs.len() == 0 {
        return Ok(None);
    }
    let first = &legs[0];
    let last = &legs[legs.len() - 1];
    assert(iv[0][0] == (first.departure_at@, first.arrival_at@));
    assert(iv[0].last() == (last.departure_at@, last.arrival_at@));
    let (departure_date, departure_time) = match split_iso_datetime(first.departure_at.as_str()) {
        Err(e) => {
            return Err(e);
        },
        Ok(x) => x,
    };
    let (arrival_date, arrival_time) = match split_iso_datetime(last.arrival_at.as_str()) {
        Err(e) => {
            return Err(e);
        },
        Ok(x) => x,
    };
    Ok(Some(FlightTimes { departure_date, departure_time, arrival_date, arrival_time }))
}

/// How an attempt to list a place's sights failed.
#[derive(Debug)]
pub enum SiteError {
    /// The service answered with a non-success status; the text describes it.
    Status(String),
    /// Anything else.
    Other(String),
}

/// The most attempts made to list a place's sights.
pub const SITE_ATTEMPTS: u32 = 3;

/// `t` occurs in `s`.
pub open spec fn occurs(s: Seq<char>, t: Seq<char>) -> bool {
    exists|i: int| 0 <= i && i + t.len() <= s.len() && #[trigger] s.subrange(i, i + t.len()) == t
}

/// After a failed attempt, when there have been `attempts` so far: only a status error that
/// mentions an unavailable service (503) is retried, and only while attempts remain.
pub open spec fn should_retry_spec(attempts: nat, status: Option<Seq<char>>) -> bool {
    match status {
        Some(m) => occurs(m, seq!['5', '0', '3']) && attempts < SITE_ATTEMPTS,
        None => false,
    }
}

fn occurs_503(m: &str) -> (r: bool)
    ensures
        r == occurs(m@, seq!['5', '0', '3']),
{
    let c = crate::text::chars_of(m);
    let ghost t = seq!['5', '0', '3'];
    if c.len() < 3 {
        assert forall|i: int| 0 <= i && i + t.len() <= c@.len() implies #[trigger] c@.subrange(
            i,
            i + t.len(),
        ) != t by {}
        return false;
    }
    let mut i: usize = 0;
    while i < c.len() - 2
        invariant
            t == seq!['5', '0', '3'],
            c@ == m@,
            c.len() >= 3,
            i <= c.len() - 2,
            forall|j: int| 0 <= j < i ==> #[trigger] c@.subrange(j, j + 3) != t,
        decreases c.len() - i,
    {
        if c[i] == '5' && c[i + 1] == '0' && c[i + 2] == '3' {
            assert(c@.subrange(i as int, i + 3) =~= t);
            return true;
        }
        assert(c@.subrange(i as int, i + 3)[0] == c@[i as int]);
        assert(c@.subrange(i as int, i + 3)[1] == c@[i + 1]);
        assert(c@.subrange(i as int, i + 3)[2] == c@[i + 2]);
        i += 1;
    }
    assert forall|j: int| 0 <= j && j + t.len() <= c@.len() implies #[trigger] c@.subrange(
        j,
        j + t.len(),
    ) != t by {
        assert(j < i);
    }
    false
}

/// Whether to try again after `error`, with `attempts` made so far.
pub fn should_retry(attempts: u32, error: &SiteError) -> (r: bool)
    ensures
        r == should_retry_spec(
            attempts as nat,
            match error {
                SiteError::Status(m) => Some(m@),
                SiteError::Other(_) => None,
            },
        ),
{
    match error {
        SiteError::Status(m) => occurs_503(m.as_str()) && attempts < SITE_ATTEMPTS,
        SiteError::Other(_) => false,
    }
}

/// What a place search whose service reported `status` comes to: nothing wrong when the
/// status is `OK`; otherwise the status itself is the error.
pub fn place_search_error(status: &str) -> (r: Option<String>)
    ensures
        r is None <==> status@ == seq!['O', 'K'],
        r matches Some(m) ==> m@ == status@,
{
    let c = crate::text::chars_of(status);
    if c.len() == 2 && c[0] == 'O' && c[1] == 'K' {
        assert(c@ =~= seq!['O', 'K']);
        None
    } else {
        Some(String::from_str(status))
    }
}

} // verus!
