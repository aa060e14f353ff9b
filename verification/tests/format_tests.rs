use skyscanner::domain::Carrier;
use skyscanner::domain::Details;
use skyscanner::domain::FightResult;
use skyscanner::domain::FormattedResult;
use skyscanner::domain::Itinerary;
use skyscanner::domain::Leg;
use skyscanner::domain::Price;
use skyscanner::domain::PriceOption;
use skyscanner::domain::ResponseDateTime;
use skyscanner::domain::ResponsePlace;
use skyscanner::domain::PlaceType;
use skyscanner::domain::Segment;
use skyscanner::format::all_have_price;
use skyscanner::format::sort_formatted;

fn dt(hour: u8, minute: u8) -> ResponseDateTime {
    ResponseDateTime { year: 2023, month: 4, day: 1, hour, minute, second: 0 }
}

fn empty_graph() -> FightResult {
    FightResult {
        itineraries: vec![],
        legs: vec![],
        segments: vec![],
        places: vec![],
        carriers: vec![],
        agents: vec![],
        alliances: vec![],
    }
}

fn price_option(amount: &str) -> PriceOption {
    PriceOption {
        id: "po".to_string(),
        price: Price {
            amount: amount.to_string(),
            unit: "PRICE_UNIT_MILLI".to_string(),
            update_status: "PRICE_UPDATE_STATUS_CURRENT".to_string(),
        },
        agent_ids: vec![],
        transfer_type: "TRANSFER_TYPE_MANAGED".to_string(),
    }
}

fn leg(marketing: Vec<&str>, operating: Vec<&str>, stop_count: u16, segment_ids: Vec<&str>) -> Leg {
    Leg {
        origin_place_id: "P1".to_string(),
        destination_place_id: "P2".to_string(),
        departure_date_time: dt(10, 0),
        arrival_date_time: dt(12, 30),
        duration_in_minutes: 150,
        stop_count,
        marketing_carrier_ids: marketing.into_iter().map(|s| s.to_string()).collect(),
        operating_carrier_ids: operating.into_iter().map(|s| s.to_string()).collect(),
        segment_ids: segment_ids.into_iter().map(|s| s.to_string()).collect(),
    }
}

fn carrier(name: &str) -> Carrier {
    Carrier {
        name: name.to_string(),
        alliance_id: "".to_string(),
        image_url: "".to_string(),
        iata: "".to_string(),
    }
}

fn one_itinerary_graph(it: Itinerary) -> FightResult {
    let mut g = empty_graph();
    g.itineraries = vec![("it1".to_string(), it)];
    g
}

#[test]
fn formatting_an_empty_graph_gives_no_results() {
    let g = empty_graph();
    assert_eq!(g.format(), vec![]);
}

#[test]
fn operating_carrier_is_used_when_no_marketing_carrier_is_listed() {
    let mut g = one_itinerary_graph(Itinerary {
        pricing_options: vec![price_option("120000")],
        leg_ids: vec!["L1".to_string()],
        sustainability_data: None,
    });
    g.legs = vec![("L1".to_string(), leg(vec![], vec!["OP1"], 0, vec![]))];
    g.carriers = vec![("OP1".to_string(), carrier("Air X"))];
    let formatted = g.format();
    assert_eq!(formatted.len(), 1);
    assert_eq!(formatted[0].details[0].carrier_name, "Air X");
}

#[test]
fn a_leg_without_any_carrier_gets_the_fixed_name() {
    let mut g = one_itinerary_graph(Itinerary {
        pricing_options: vec![],
        leg_ids: vec!["L1".to_string()],
        sustainability_data: None,
    });
    g.legs = vec![("L1".to_string(), leg(vec![], vec![], 0, vec![]))];
    let formatted = g.format();
    assert_eq!(formatted[0].details[0].carrier_name, "Unknown carrier name");
}

#[test]
fn an_itinerary_with_a_dangling_leg_is_skipped() {
    let g = one_itinerary_graph(Itinerary {
        pricing_options: vec![price_option("5")],
        leg_ids: vec!["missing".to_string()],
        sustainability_data: None,
    });
    assert_eq!(g.format(), vec![]);
}

#[test]
fn an_itinerary_with_a_dangling_carrier_is_skipped() {
    let mut g = one_itinerary_graph(Itinerary {
        pricing_options: vec![],
        leg_ids: vec!["L1".to_string()],
        sustainability_data: None,
    });
    g.legs = vec![("L1".to_string(), leg(vec!["nope"], vec![], 0, vec![]))];
    assert_eq!(g.format(), vec![]);
}

#[test]
fn segment_codes_use_place_iata_and_fall_back_to_raw_ids() {
    let mut g = one_itinerary_graph(Itinerary {
        pricing_options: vec![],
        leg_ids: vec!["L1".to_string()],
        sustainability_data: None,
    });
    g.legs = vec![("L1".to_string(), leg(vec![], vec![], 2, vec!["S1", "S2", "S3"]))];
    g.segments = vec![
        (
            "S1".to_string(),
            Segment {
                origin_place_id: "P1".to_string(),
                destination_place_id: "P2".to_string(),
                departure_date_time: dt(10, 0),
                arrival_date_time: dt(11, 0),
                duration_in_minutes: 60,
                marking_flight_number: None,
                marking_carrier_id: None,
                operating_carrier_id: None,
            },
        ),
        (
            "S2".to_string(),
            Segment {
                origin_place_id: "P2".to_string(),
                destination_place_id: "P9".to_string(),
                departure_date_time: dt(11, 30),
                arrival_date_time: dt(12, 30),
                duration_in_minutes: 60,
                marking_flight_number: None,
                marking_carrier_id: None,
                operating_carrier_id: None,
            },
        ),
    ];
    g.places = vec![(
        "P2".to_string(),
        ResponsePlace {
            entity_id: "1".to_string(),
            parent_id: "".to_string(),
            name: "Taipei".to_string(),
            iata: "TPE".to_string(),
            kind: PlaceType::PlaceTypeAirport,
        },
    )];
    let formatted = g.format();
    // A known segment with a known place shows the place's IATA code; a
    // known segment whose place is unknown shows the raw place ID; an
    // unknown segment shows the raw segment ID.  Every code carries the
    // ellipsis prefix.
    assert_eq!(
        formatted[0].details[0].segments,
        vec!["...TPE".to_string(), "...P9".to_string(), "...S3".to_string()]
    );
}

#[test]
fn empty_or_unparseable_amounts_are_filtered_out() {
    let g = one_itinerary_graph(Itinerary {
        pricing_options: vec![
            price_option(""),
            price_option("abc"),
            price_option("50"),
            price_option("12.5"),
        ],
        leg_ids: vec![],
        sustainability_data: None,
    });
    let formatted = g.format();
    assert_eq!(formatted[0].price_options, vec![50_000_000, 12_500_000]);
}

#[test]
fn an_itinerary_with_no_pricing_options_has_no_prices() {
    let g = one_itinerary_graph(Itinerary {
        pricing_options: vec![],
        leg_ids: vec![],
        sustainability_data: None,
    });
    let formatted = g.format();
    assert_eq!(formatted[0].price_options, vec![]);
}

#[test]
fn formatting_twice_gives_equal_output() {
    let mut g = one_itinerary_graph(Itinerary {
        pricing_options: vec![price_option("99000")],
        leg_ids: vec!["L1".to_string()],
        sustainability_data: None,
    });
    g.legs = vec![("L1".to_string(), leg(vec![], vec!["OP1"], 0, vec![]))];
    g.carriers = vec![("OP1".to_string(), carrier("Air X"))];
    assert_eq!(g.format(), g.format());
}

#[test]
fn a_nonstop_leg_renders_without_a_stop_trail() {
    let d = Details {
        departure_date: dt(10, 0),
        arrival_date: dt(12, 30),
        stop_count: 0,
        segments: vec!["...TPE".to_string()],
        carrier_name: "Air X".to_string(),
    };
    let f = FormattedResult { price_options: vec![120_000_000_000], details: vec![d] };
    assert_eq!(
        f.render(),
        "Carrier(Air X):\t2023-04-01 10:00:00 -> 2023-04-01 12:30:00\nPrice: 120\n"
    );
}

#[test]
fn a_leg_with_stops_renders_the_stop_count_and_trail() {
    let d = Details {
        departure_date: dt(9, 5),
        arrival_date: dt(23, 59),
        stop_count: 1,
        segments: vec!["...TPE".to_string(), "...NRT".to_string()],
        carrier_name: "Air X".to_string(),
    };
    let f = FormattedResult { price_options: vec![1_234_000_000], details: vec![d] };
    assert_eq!(
        f.render(),
        "Carrier(Air X):\t2023-04-01 09:05:00 -> 2023-04-01 23:59:00\t(stop count: 1)\t(...TPE)\nPrice: 1.234\n"
    );
}

#[test]
fn an_itinerary_without_prices_renders_no_price_line() {
    let d = Details {
        departure_date: dt(10, 0),
        arrival_date: dt(12, 30),
        stop_count: 0,
        segments: vec![],
        carrier_name: "Air X".to_string(),
    };
    let f = FormattedResult { price_options: vec![], details: vec![d] };
    assert_eq!(
        f.render(),
        "Carrier(Air X):\t2023-04-01 10:00:00 -> 2023-04-01 12:30:00\n"
    );
}

#[test]
fn sorting_puts_the_highest_price_first() {
    let cheap = FormattedResult { price_options: vec![99_000_000_000], details: vec![] };
    let dear = FormattedResult { price_options: vec![120_000_000_000], details: vec![] };
    let v = vec![cheap, dear];
    assert!(all_have_price(&v));
    let sorted = sort_formatted(v);
    assert_eq!(sorted[0].price_options[0], 120_000_000_000);
    assert_eq!(sorted[1].price_options[0], 99_000_000_000);
    assert_eq!(sorted[0].render(), "Price: 120\n");
    assert_eq!(sorted[1].render(), "Price: 99\n");
}

#[test]
fn sorting_rejects_nothing_but_keeps_every_itinerary() {
    let a = FormattedResult { price_options: vec![5_000_000], details: vec![] };
    let b = FormattedResult { price_options: vec![7_000_000], details: vec![] };
    let c = FormattedResult { price_options: vec![5_000_000], details: vec![] };
    let sorted = sort_formatted(vec![a, b, c]);
    assert_eq!(sorted.len(), 3);
    assert_eq!(sorted[0].price_options[0], 7_000_000);
    assert_eq!(sorted[1].price_options[0], 5_000_000);
    assert_eq!(sorted[2].price_options[0], 5_000_000);
}

#[test]
fn an_empty_collection_reports_all_prices_present() {
    let v: Vec<FormattedResult> = vec![];
    assert!(all_have_price(&v));
    let missing = FormattedResult { price_options: vec![], details: vec![] };
    assert!(!all_have_price(&vec![missing]));
}
