//! Behavioural tests of the weather oracle core, from the decimal ground
//! up to a whole block cycle.

use weather_oracle::INHERENT_IDENTIFIER;
use weather_oracle::coords::scale;
use weather_oracle::coords::unscale;
use weather_oracle::decimal::parse_tenths_round;
use weather_oracle::decimal::parse_tenths_trunc;
use weather_oracle::decimal::render_tenths;
use weather_oracle::json::weather_body_deci;
use weather_oracle::ledger::BagError;
use weather_oracle::ledger::Call;
use weather_oracle::ledger::DispatchError;
use weather_oracle::ledger::Error;
use weather_oracle::ledger::Event;
use weather_oracle::ledger::InherentData;
use weather_oracle::ledger::InherentError;
use weather_oracle::ledger::Origin;
use weather_oracle::ledger::Pallet;
use weather_oracle::provider::begin_provision;
use weather_oracle::provider::ip_received;
use weather_oracle::provider::ip_url;
use weather_oracle::provider::latlong_received;
use weather_oracle::provider::latlong_url;
use weather_oracle::provider::split_latlong;
use weather_oracle::provider::try_handle_error;
use weather_oracle::provider::weather_received;
use weather_oracle::provider::weather_url;
use weather_oracle::provider::FetchError;
use weather_oracle::provider::ProvideError;
use weather_oracle::provider::ProviderAction;
use weather_oracle::provider::Resolution;
use weather_oracle::provider::ResolveError;
use weather_oracle::quantize::decode;
use weather_oracle::quantize::quantize;
use weather_oracle::quantize::EncodeError;

fn weather_body(temperature: &str) -> String {
    let mut body = String::from(
        "{\"latitude\":52.52,\"longitude\":13.419,\"generationtime_ms\":0.055,\
         \"utc_offset_seconds\":0,\"timezone\":\"GMT\",\"timezone_abbreviation\":\"GMT\",\
         \"elevation\":38.0,\"note\":\"has current_weather inside a string\",\
         \"levels\":[1,2,[3,{\"x\":true}]],\"current_weather\":{\"windspeed\":10.3,\
         \"winddirection\":262,\"weathercode\":3,\"is_day\":1,\"temperature\":",
    );
    body.push_str(temperature);
    body.push_str(",\"time\":\"2024-01-01T12:00\"}}");
    body
}

#[test]
fn identifier_is_the_fixed_tag() {
    assert_eq!(INHERENT_IDENTIFIER, *b"weat_orc");
}

#[test]
fn parse_truncates_toward_zero() {
    assert_eq!(parse_tenths_trunc("23.47"), Some(234));
    assert_eq!(parse_tenths_trunc("-3.79"), Some(-37));
    assert_eq!(parse_tenths_trunc("18"), Some(180));
    assert_eq!(parse_tenths_trunc("+0.5"), Some(5));
    assert_eq!(parse_tenths_trunc("abc"), None);
    assert_eq!(parse_tenths_trunc(""), None);
    assert_eq!(parse_tenths_trunc("1.2.3"), None);
    assert_eq!(parse_tenths_trunc("12."), None);
    assert_eq!(parse_tenths_trunc(".5"), None);
    assert_eq!(parse_tenths_trunc("1e5"), None);
}

#[test]
fn parse_rounds_halves_away_from_zero() {
    assert_eq!(parse_tenths_round("52.55"), Some(526));
    assert_eq!(parse_tenths_round("52.54"), Some(525));
    assert_eq!(parse_tenths_round("-0.05"), Some(-1));
    assert_eq!(parse_tenths_round("-0.04"), Some(0));
    assert_eq!(parse_tenths_round("0.0449"), Some(0));
    assert_eq!(parse_tenths_round("13.4"), Some(134));
}

#[test]
fn render_drops_the_dot_for_whole_numbers() {
    assert_eq!(render_tenths(525), "52.5");
    assert_eq!(render_tenths(-37), "-3.7");
    assert_eq!(render_tenths(230), "23");
    assert_eq!(render_tenths(0), "0");
    assert_eq!(render_tenths(-32768), "-3276.8");
}

#[test]
fn quantize_truncation_example() {
    // 23.47 degrees quantizes to 234/1000, never 235/1000
    let deci = parse_tenths_trunc("23.47").unwrap();
    let q = quantize(deci).unwrap();
    assert_eq!(q.deconstruct(), 234);
}

#[test]
fn quantize_rejects_from_one_hundred_degrees() {
    assert_eq!(quantize(1000), Err(EncodeError::OutOfRange));
    assert_eq!(quantize(5000), Err(EncodeError::OutOfRange));
    assert_eq!(quantize(999).unwrap().deconstruct(), 999);
}

#[test]
fn quantize_saturates_below_zero() {
    assert_eq!(quantize(-37).unwrap().deconstruct(), 0);
}

#[test]
fn quantize_is_monotonic_on_examples() {
    let temps: [i64; 6] = [-50, 0, 5, 186, 234, 999];
    let mut last: u32 = 0;
    for t in temps {
        let n = quantize(t).unwrap().deconstruct();
        assert!(last <= n);
        last = n;
    }
}

#[test]
fn message_renders_the_reading() {
    assert_eq!(quantize(186).unwrap().message(), "18.6 °C");
    assert_eq!(quantize(230).unwrap().message(), "23 °C");
    assert_eq!(quantize(-5).unwrap().message(), "0 °C");
}

#[test]
fn scale_unscale_round_trip_within_tolerance() {
    assert_eq!(scale("52.5"), Some(525));
    assert_eq!(unscale(525), "52.5");
    assert_eq!(scale("13.4"), Some(134));
    assert_eq!(unscale(-30), "-3");
    // a finer input still lands within 0.05 degrees
    assert_eq!(scale("3.14159"), Some(31));
    assert_eq!(unscale(31), "3.1");
    // a rendered value scales back to itself exactly
    for v in [-32768i16, -1, 0, 1, 525, 32767] {
        assert_eq!(scale(&unscale(v)), Some(v));
    }
}

#[test]
fn scale_accepts_out_of_domain_latitude() {
    // no domain check: 91.0 degrees is representable in 16-bit tenths
    assert_eq!(scale("91.0"), Some(910));
    // magnitudes beyond the 16-bit range clamp to its edge
    assert_eq!(scale("99999999"), Some(32767));
    assert_eq!(scale("-99999999"), Some(-32768));
    assert_eq!(scale("abc"), None);
}

#[test]
fn encode_decode_round_trip() {
    let q = quantize(186).unwrap();
    let bytes = q.encode();
    assert_eq!(bytes, vec![0x90, 0xd6, 0x02, 0x00]);
    assert_eq!(decode(&bytes), Some(q));
}

#[test]
fn decode_is_fail_closed() {
    assert_eq!(decode(&[]), None);
    assert_eq!(decode(&[1, 2, 3]), None);
    // 1_000_000 parts per million: a fraction of one, out of [0, 1)
    assert_eq!(decode(&[0x40, 0x42, 0x0f, 0x00]), None);
    // not a whole number of thousandths
    assert_eq!(decode(&[0x31, 0xd6, 0x02, 0x00]), None);
}

#[test]
fn bag_holds_one_payload_per_identifier() {
    let mut bag = InherentData::new();
    assert_eq!(bag.get_data(&INHERENT_IDENTIFIER), None);
    assert_eq!(bag.put_data(INHERENT_IDENTIFIER, vec![1, 2, 3, 4]), Ok(()));
    assert_eq!(bag.get_data(&INHERENT_IDENTIFIER), Some(vec![1, 2, 3, 4]));
    assert_eq!(
        bag.put_data(INHERENT_IDENTIFIER, vec![9]),
        Err(BagError::InherentDataExists)
    );
    assert_eq!(bag.get_data(&INHERENT_IDENTIFIER), Some(vec![1, 2, 3, 4]));
    assert_eq!(bag.get_data(b"timstmp0"), None);
}

#[test]
fn inherent_decisions_follow_the_bag() {
    let mut bag = InherentData::new();
    assert_eq!(Pallet::is_inherent_required(&bag), Ok(None));
    assert!(Pallet::create_inherent(&bag).is_none());
    assert!(Pallet::get_and_decode_data(&bag).is_none());

    let q = quantize(186).unwrap();
    bag.put_data(INHERENT_IDENTIFIER, q.encode()).unwrap();
    assert_eq!(
        Pallet::is_inherent_required(&bag),
        Ok(Some(InherentError::InherentRequiredForDataPresent))
    );
    assert_eq!(
        Pallet::create_inherent(&bag),
        Some(Call::WeatherDataSet { weather_data: q })
    );
    assert_eq!(Pallet::get_and_decode_data(&bag), Some(q));

    // a malformed payload is as good as none
    let mut bad = InherentData::new();
    bad.put_data(INHERENT_IDENTIFIER, vec![9, 9, 9]).unwrap();
    assert_eq!(Pallet::is_inherent_required(&bad), Ok(None));
    assert!(Pallet::create_inherent(&bad).is_none());
}

#[test]
fn only_weather_data_set_is_an_inherent() {
    let q = quantize(186).unwrap();
    assert!(Pallet::is_inherent(&Call::WeatherDataSet { weather_data: q }));
    assert!(!Pallet::is_inherent(&Call::OrderWeatherData {
        lat_str: String::from("52.5"),
        long_str: String::from("13.4"),
    }));
}

#[test]
fn weather_data_set_at_most_once_per_block() {
    let mut pallet = Pallet::new();
    let q = quantize(186).unwrap();
    assert!(pallet.weather_data_set(Origin::Unsigned, q).is_ok());
    assert_eq!(
        pallet.weather_data_set(Origin::Unsigned, q),
        Err(DispatchError::Module(Error::AlreadySet))
    );
    pallet.on_initialize();
    assert!(pallet.weather_data_set(Origin::Unsigned, q).is_ok());
}

#[test]
fn weather_data_set_rejects_other_origins() {
    let mut pallet = Pallet::new();
    let q = quantize(186).unwrap();
    assert_eq!(
        pallet.weather_data_set(Origin::Signed(7), q),
        Err(DispatchError::BadOrigin)
    );
    assert_eq!(
        pallet.weather_data_set(Origin::Root, q),
        Err(DispatchError::BadOrigin)
    );
    assert_eq!(pallet.stored_inherent_data(), None);
}

#[test]
fn order_weather_data_parses_scales_and_stores() {
    let mut pallet = Pallet::new();
    // out-of-domain latitude passes parsing and fits 16-bit tenths
    let ev = pallet
        .order_weather_data(Origin::Signed(1), String::from("91.0"), String::from("0.0"))
        .unwrap();
    assert_eq!(
        ev,
        Event::WeatherOrderSet { latlong: (String::from("91.0"), String::from("0.0")) }
    );
    assert_eq!(pallet.weather_order(), Some((910, 0)));

    // a second order in the same block fails
    assert_eq!(
        pallet.order_weather_data(Origin::Signed(2), String::from("1.0"), String::from("2.0")),
        Err(DispatchError::Module(Error::WeatherOrderAlreadySet))
    );

    // malformed input fails parsing, unsigned callers are rejected
    pallet.on_initialize();
    assert_eq!(
        pallet.order_weather_data(Origin::Signed(1), String::from("abc"), String::from("0.0")),
        Err(DispatchError::Module(Error::FailedParsingLatitudeOrLongitude))
    );
    assert_eq!(
        pallet.order_weather_data(Origin::Unsigned, String::from("1.0"), String::from("2.0")),
        Err(DispatchError::BadOrigin)
    );
    assert_eq!(pallet.weather_order(), None);
}

#[test]
fn dispatch_routes_calls() {
    let mut pallet = Pallet::new();
    pallet
        .dispatch(
            Origin::Signed(3),
            Call::OrderWeatherData { lat_str: String::from("1.5"), long_str: String::from("2") },
        )
        .unwrap();
    assert_eq!(pallet.weather_order(), Some((15, 20)));
    let q = quantize(230).unwrap();
    assert_eq!(
        pallet.dispatch(Origin::Signed(3), Call::WeatherDataSet { weather_data: q }),
        Err(DispatchError::BadOrigin)
    );
    let ev = pallet
        .dispatch(Origin::Unsigned, Call::WeatherDataSet { weather_data: q })
        .unwrap();
    assert_eq!(ev, Event::WeatherDataSet { data: String::from("23 °C") });
}

#[test]
fn resolver_prefers_a_live_order() {
    match begin_provision(Some((525, 134))) {
        ProviderAction::FetchWeather { resolution: Resolution::FromOrder { lat, long } } => {
            assert_eq!(lat, "52.5");
            assert_eq!(long, "13.4");
        }
        other => panic!("expected a weather fetch from the order, got {:?}", other),
    }
    assert_eq!(begin_provision(None), ProviderAction::FetchIp);
}

#[test]
fn geolocation_fallback_chain() {
    assert_eq!(
        ip_received(Ok(String::from("1.2.3.4"))),
        ProviderAction::FetchLatLong { ip: String::from("1.2.3.4") }
    );
    // the address text is passed on exactly as it came, untrimmed
    assert_eq!(
        ip_received(Ok(String::from("1.2.3.4\n"))),
        ProviderAction::FetchLatLong { ip: String::from("1.2.3.4\n") }
    );
    assert_eq!(
        ip_received(Err(String::from("timed out"))),
        ProviderAction::Abort {
            error: ProvideError::Resolve(ResolveError::Transport {
                message: String::from("timed out"),
            }),
        }
    );
    assert_eq!(
        latlong_received(Ok(String::from("52.5,13.4"))),
        ProviderAction::FetchWeather {
            resolution: Resolution::FromGeolocation {
                lat: String::from("52.5"),
                long: String::from("13.4"),
            },
        }
    );
    assert_eq!(
        latlong_received(Ok(String::from("no comma here"))),
        ProviderAction::Abort {
            error: ProvideError::Resolve(ResolveError::MissingLongitude),
        }
    );
}

#[test]
fn split_latlong_takes_the_first_two_fields() {
    assert_eq!(
        split_latlong("52.5,13.4,extra"),
        Ok((String::from("52.5"), String::from("13.4")))
    );
    assert_eq!(
        split_latlong(",13.4"),
        Ok((String::from(""), String::from("13.4")))
    );
    assert_eq!(split_latlong("52.5"), Err(ResolveError::MissingLongitude));
}

#[test]
fn weather_body_extraction() {
    assert_eq!(weather_body_deci(&weather_body("18.6")), Some(186));
    assert_eq!(weather_body_deci(&weather_body("-3.79")), Some(-37));
    assert_eq!(weather_body_deci(&weather_body("23")), Some(230));
    // exponent form is not a plain decimal numeral
    assert_eq!(weather_body_deci(&weather_body("1.86e1")), None);
    // a string where the number should be
    assert_eq!(weather_body_deci(&weather_body("\"18.6\"")), None);
    // shape mismatches
    assert_eq!(weather_body_deci("{}"), None);
    assert_eq!(weather_body_deci("not json at all"), None);
    assert_eq!(weather_body_deci("{\"current_weather\":{\"windspeed\":3.0}}"), None);
    assert_eq!(weather_body_deci("{\"current_weather\":[1,2]}"), None);
    // minimal well-shaped reply
    assert_eq!(
        weather_body_deci("{ \"current_weather\" : { \"temperature\" : 0.7 } }"),
        Some(7)
    );
}

#[test]
fn weather_received_outcomes() {
    match weather_received(Ok(weather_body("18.6"))) {
        ProviderAction::ProvideData { encoded } => {
            assert_eq!(decode(&encoded).unwrap().deconstruct(), 186);
        }
        other => panic!("expected data, got {:?}", other),
    }
    assert_eq!(
        weather_received(Ok(weather_body("100.0"))),
        ProviderAction::Abort { error: ProvideError::Encode(EncodeError::OutOfRange) }
    );
    assert_eq!(
        weather_received(Ok(String::from("garbage"))),
        ProviderAction::Abort { error: ProvideError::Fetch(FetchError::MalformedBody) }
    );
    assert_eq!(
        weather_received(Err(String::from("connection reset"))),
        ProviderAction::Abort {
            error: ProvideError::Fetch(FetchError::Transport {
                message: String::from("connection reset"),
            }),
        }
    );
}

#[test]
fn error_handling_only_for_the_own_tag() {
    assert_eq!(try_handle_error(b"timstmp0", &[1, 2, 3]), None);
    assert_eq!(try_handle_error(b"weat_ork", &[]), None);
    match try_handle_error(&INHERENT_IDENTIFIER, &[7, 8]) {
        Some(Err(ProvideError::Application { raw })) => assert_eq!(raw, vec![7, 8]),
        other => panic!("expected a fatal application error, got {:?}", other),
    }
    match try_handle_error(b"weat_orc", &[]) {
        Some(Err(ProvideError::Application { raw })) => assert!(raw.is_empty()),
        other => panic!("expected a fatal application error, got {:?}", other),
    }
}

#[test]
fn endpoint_urls() {
    assert_eq!(ip_url(), "http://icanhazip.com");
    assert_eq!(latlong_url("1.2.3.4"), "https://ipapi.co/1.2.3.4/latlong/");
    assert_eq!(
        weather_url("52.5", "13.4"),
        "https://api.open-meteo.com/v1/forecast?latitude=52.5&longitude=13.4&current_weather=true"
    );
}

#[test]
fn inherent_errors_are_fatal() {
    assert!(InherentError::InherentRequiredForDataPresent.is_fatal_error());
}

#[test]
fn end_to_end_block_cycle() {
    // a user orders the weather for Berlin
    let mut pallet = Pallet::new();
    pallet
        .order_weather_data(Origin::Signed(1), String::from("52.5"), String::from("13.4"))
        .unwrap();

    // the provider resolves from the order, never from geolocation
    let action = begin_provision(pallet.weather_order());
    let (lat, long) = match action {
        ProviderAction::FetchWeather { resolution: Resolution::FromOrder { lat, long } } => {
            (lat, long)
        }
        other => panic!("expected a weather fetch from the order, got {:?}", other),
    };
    assert_eq!((lat.as_str(), long.as_str()), ("52.5", "13.4"));

    // the weather endpoint reports 18.6 degrees; the reading is
    // quantized to 186/1000 and filed in the bag
    let mut bag = InherentData::new();
    match weather_received(Ok(weather_body("18.6"))) {
        ProviderAction::ProvideData { encoded } => {
            bag.put_data(INHERENT_IDENTIFIER, encoded).unwrap();
        }
        other => panic!("expected data, got {:?}", other),
    }

    // the ledger constructs and applies the inherent call
    let weather_data = match Pallet::create_inherent(&bag) {
        Some(Call::WeatherDataSet { weather_data }) => weather_data,
        other => panic!("expected the inherent call, got {:?}", other),
    };
    assert_eq!(weather_data.deconstruct(), 186);
    let ev = pallet.weather_data_set(Origin::Unsigned, weather_data).unwrap();
    assert_eq!(ev, Event::WeatherDataSet { data: String::from("18.6 °C") });
    assert_eq!(pallet.stored_inherent_data(), Some(weather_data));

    // the next block's initialization purges both records
    pallet.on_initialize();
    assert_eq!(pallet.stored_inherent_data(), None);
    assert_eq!(pallet.weather_order(), None);
}
