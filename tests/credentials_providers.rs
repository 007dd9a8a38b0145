use travel_agent::cache::{AuthError, Decision, Identity, TokenCache};
use travel_agent::codes::{IataCode, Station};
use travel_agent::datetime::Date;
use travel_agent::providers::{
    address_line, first_photo_reference, place_search_error, flight_times, flights_url, hotels_url, photo_url,
    seat_availability, seats_url, should_retry, train_details_url, Address, AvailabilityDetail,
    Segment, SiteError,
};

fn identity(id: &str) -> Identity {
    Identity { client_id: id.to_string(), client_secret: "SECRET-REDACTED".to_string() }
}

#[test]
fn single_flight_refresh() {
    let mut c = TokenCache::new();
    let a = identity("a");
    assert!(matches!(c.begin(&a, 1000), Decision::Fetch));
    for _ in 0..5 {
        assert!(matches!(c.begin(&a, 1000), Decision::Wait));
    }
    let s = c.complete(&a, 1001, Ok(("tok-1".to_string(), 1799))).unwrap();
    assert_eq!(s, "tok-1");
    for _ in 0..5 {
        assert!(matches!(c.begin(&a, 1002), Decision::Serve(t) if t == "tok-1"));
    }
    assert_eq!(c.lookup(&a, 1002), Some("tok-1".to_string()));
}

#[test]
fn refresh_within_safety_margin() {
    let mut c = TokenCache::new();
    let a = identity("a");
    assert!(matches!(c.begin(&a, 0), Decision::Fetch));
    c.complete(&a, 0, Ok(("t".to_string(), 100))).unwrap();
    assert_eq!(c.lookup(&a, 69), Some("t".to_string()));
    // expiry 100 is not more than 30 seconds after 70
    assert_eq!(c.lookup(&a, 70), None);
    assert!(matches!(c.begin(&a, 70), Decision::Fetch));
}

#[test]
fn failed_refresh_is_isolated() {
    let mut c = TokenCache::new();
    let a = identity("a");
    let b = identity("b");
    assert!(matches!(c.begin(&a, 0), Decision::Fetch));
    c.complete(&a, 0, Ok(("ta".to_string(), 1000))).unwrap();
    assert!(matches!(c.begin(&b, 0), Decision::Fetch));
    c.complete(&b, 0, Ok(("tb".to_string(), 1000))).unwrap();
    // a refresh of a that fails, begun by force at a time a is still fresh
    let r = c.complete(&a, 10, Err(AuthError::Rejected(401)));
    assert!(matches!(r, Err(AuthError::Rejected(401))));
    assert_eq!(c.lookup(&a, 10), Some("ta".to_string()));
    assert_eq!(c.lookup(&b, 10), Some("tb".to_string()));
    // a failed refresh lets the next caller try again
    assert!(matches!(c.begin(&a, 980), Decision::Fetch));
    assert!(matches!(c.complete(&a, 980, Err(AuthError::Transport("down".into()))), Err(_)));
    assert!(matches!(c.begin(&a, 980), Decision::Fetch));
    assert_eq!(c.lookup(&b, 500), Some("tb".to_string()));
}

#[test]
fn expiry_saturates() {
    let mut c = TokenCache::new();
    let a = identity("a");
    c.begin(&a, u64::MAX - 10);
    c.complete(&a, u64::MAX - 100, Ok(("t".to_string(), u64::MAX))).unwrap();
    assert_eq!(c.lookup(&a, u64::MAX - 100), Some("t".to_string()));
    assert_eq!(c.lookup(&a, u64::MAX - 30), None);
}

#[test]
fn provider_urls() {
    let del = IataCode::new("DEL".into()).unwrap();
    let bom = IataCode::new("BOM".into()).unwrap();
    let d = Date::new(2025, 10, 4).unwrap();
    assert_eq!(
        flights_url(&del, &bom, &d, 2, "INR"),
        "https://test.api.amadeus.com/v2/shopping/flight-offers?originLocationCode=DEL&destinationLocationCode=BOM&departureDate=2025-10-04&adults=2&currencyCode=INR"
    );
    assert_eq!(
        flights_url(&del, &bom, &d, 10, "USD"),
        "https://test.api.amadeus.com/v2/shopping/flight-offers?originLocationCode=DEL&destinationLocationCode=BOM&departureDate=2025-10-04&adults=10&currencyCode=USD"
    );
    assert_eq!(
        hotels_url(&del, "INR"),
        "https://test.api.amadeus.com/v3/shopping/hotel-offers?cityCode=DEL&currencyCode=INR"
    );
    assert_eq!(
        train_details_url("12002"),
        "https://irctc1.p.rapidapi.com/api/v1/getTrainDetails?trainNo=12002"
    );
    let ndls = Station::new("NDLS".into()).unwrap();
    let bct = Station::new("BCT".into()).unwrap();
    assert_eq!(
        seats_url("12952", &ndls, &bct, &d, "3A", "GN"),
        "https://irctc1.p.rapidapi.com/api/v1/checkSeatAvailability?classCode=3A&quotaCode=GN&trainNo=12952&dateOfJourney=2025-10-04&fromStationCode=NDLS&toStationCode=BCT"
    );
    assert_eq!(
        photo_url("ref1", "KEY"),
        "https://maps.googleapis.com/maps/api/place/photo?maxwidth=1600&photo_reference=ref1&key=KEY"
    );
}

#[test]
fn seat_availability_record() {
    let s = seat_availability(
        "12952",
        "3A",
        "GN",
        vec![AvailabilityDetail { date: "4-10-2025".into(), status: "AVAILABLE-0012".into() }],
    );
    assert_eq!((s.train_number.as_str(), s.class.as_str(), s.quota.as_str()), ("12952", "3A", "GN"));
    assert_eq!(s.availability.len(), 1);
}

#[test]
fn photo_reference_choice() {
    let results = vec![
        None,
        Some(vec![]),
        Some(vec!["first".to_string(), "last".to_string()]),
        Some(vec!["other".to_string()]),
    ];
    assert_eq!(first_photo_reference(&results), Some("last".to_string()));
    assert_eq!(first_photo_reference(&vec![None, Some(vec![])]), None);
}

#[test]
fn address_lines() {
    let a = Address {
        lines: Some(vec!["1 Main St".into(), "Block B".into()]),
        city_name: Some("DELHI".into()),
        country_code: Some("IN".into()),
    };
    assert_eq!(address_line(&Some(a)), "1 Main St, Block B, DELHI, IN");
    let b = Address { lines: Some(vec![]), city_name: None, country_code: Some("IN".into()) };
    assert_eq!(address_line(&Some(b)), "IN");
    assert_eq!(address_line(&None), "");
}

#[test]
fn flight_times_from_segments() {
    let legs = vec![
        Segment { departure_at: "2025-10-04T06:05:00".into(), arrival_at: "2025-10-04T08:00:00".into() },
        Segment { departure_at: "2025-10-04T09:00:00".into(), arrival_at: "2025-10-05T01:30:00".into() },
    ];
    let t = flight_times(&vec![legs]).unwrap().unwrap();
    assert_eq!(t.departure_date.to_yyyy_mm_dd(), "2025-10-04");
    assert_eq!(t.departure_time.to_hh_mm_ss(), "06:05:00");
    assert_eq!(t.arrival_date.to_yyyy_mm_dd(), "2025-10-05");
    assert_eq!(t.arrival_time.to_hh_mm_ss(), "01:30:00");
    assert_eq!(flight_times(&vec![]), Ok(None));
    assert_eq!(flight_times(&vec![vec![]]), Ok(None));
    let bad = vec![vec![Segment { departure_at: "2025-10-04".into(), arrival_at: "x".into() }]];
    assert!(flight_times(&bad).is_err());
}

#[test]
fn site_listing_retries() {
    let unavailable = SiteError::Status("503 Service Unavailable".into());
    assert!(should_retry(1, &unavailable));
    assert!(should_retry(2, &unavailable));
    assert!(!should_retry(3, &unavailable));
    assert!(!should_retry(1, &SiteError::Status("429 Too Many Requests".into())));
    assert!(!should_retry(1, &SiteError::Other("503".into())));
}

#[test]
fn place_search_status() {
    assert_eq!(place_search_error("OK"), None);
    assert_eq!(place_search_error("ZERO_RESULTS"), Some("ZERO_RESULTS".to_string()));
    assert_eq!(place_search_error("ok"), Some("ok".to_string()));
}
