use skyscanner::datasource::build_queries;
use skyscanner::datasource::Datasource;
use skyscanner::datasource::SessionCall;
use skyscanner::datasource::SessionEvent;
use skyscanner::domain::Date;
use skyscanner::domain::FightResult;
use skyscanner::domain::FightsContent;
use skyscanner::domain::FlightsResponse;
use skyscanner::domain::Place;
use skyscanner::domain::Query;
use skyscanner::domain::ResponseAction;
use skyscanner::domain::ResponseStatus;

fn empty_results() -> FightsContent {
    FightsContent {
        results: FightResult {
            itineraries: vec![],
            legs: vec![],
            segments: vec![],
            places: vec![],
            carriers: vec![],
            agents: vec![],
            alliances: vec![],
        },
    }
}

fn snapshot(token: &str, status: ResponseStatus) -> FlightsResponse {
    FlightsResponse {
        session_token: token.to_string(),
        status,
        action: ResponseAction::ResultActionReplaced,
        content: empty_results(),
    }
}

#[test]
fn a_session_creates_once_polls_with_the_token_and_then_stops() {
    let mut ds = Datasource::new(Query::default());

    assert!(matches!(ds.pending_call(), SessionCall::Create));
    let first = ds.absorb(SessionEvent::Response(snapshot(
        "T",
        ResponseStatus::ResultStatusIncomplete,
    )));
    assert!(first.is_some());

    match ds.pending_call() {
        SessionCall::Poll { token } => assert_eq!(token, "T"),
        _ => panic!("expected a poll"),
    }
    let second = ds.absorb(SessionEvent::Response(snapshot(
        "T",
        ResponseStatus::ResultStatusComplete,
    )));
    assert!(second.is_some());

    assert!(matches!(ds.pending_call(), SessionCall::NoCall));
    let third = ds.absorb(SessionEvent::Response(snapshot(
        "T",
        ResponseStatus::ResultStatusIncomplete,
    )));
    assert!(third.is_none());
    assert!(matches!(ds.pending_call(), SessionCall::NoCall));
}

#[test]
fn an_incomplete_poll_keeps_the_session_running() {
    let mut ds = Datasource::new(Query::default());
    ds.absorb(SessionEvent::Response(snapshot("T", ResponseStatus::ResultStatusIncomplete)));
    let again = ds.absorb(SessionEvent::Response(snapshot(
        "T",
        ResponseStatus::ResultStatusIncomplete,
    )));
    assert!(again.is_some());
    match ds.pending_call() {
        SessionCall::Poll { token } => assert_eq!(token, "T"),
        _ => panic!("expected a poll"),
    }
}

#[test]
fn a_transport_failure_terminates_the_session_silently() {
    let mut ds = Datasource::new(Query::default());
    let r = ds.absorb(SessionEvent::TransportFailed);
    assert!(r.is_none());
    assert!(matches!(ds.pending_call(), SessionCall::NoCall));
}

#[test]
fn a_failed_status_terminates_the_session_silently() {
    let mut ds = Datasource::new(Query::default());
    ds.absorb(SessionEvent::Response(snapshot("T", ResponseStatus::ResultStatusIncomplete)));
    let r = ds.absorb(SessionEvent::Response(snapshot(
        "T",
        ResponseStatus::ResultStatusFailed,
    )));
    assert!(r.is_none());
    assert!(matches!(ds.pending_call(), SessionCall::NoCall));
}

#[test]
fn queries_are_built_with_a_round_trip_per_date_pair() {
    let base = Query::default()
        .set_market("TW".to_string())
        .set_locale("zh-TW".to_string())
        .set_currency("TWD".to_string());
    let from = Place::new(Some("TPE".to_string()), None);
    let to = Place::new(Some("NRT".to_string()), None);
    let dates = vec![
        (Date::new(2023, 4, 1), Date::new(2023, 4, 4)),
        (Date::new(2023, 4, 2), Date::new(2023, 4, 5)),
    ];

    let queries = build_queries(&base, &from, &to, &dates);
    assert_eq!(queries.len(), 2);
    for (q, (out, back)) in queries.iter().zip(dates.iter()) {
        assert_eq!(q.market, "TW");
        assert_eq!(q.locale, "zh-TW");
        assert_eq!(q.currency, "TWD");
        assert_eq!(q.adults, 1);
        assert_eq!(q.query_legs.len(), 2);
        assert_eq!(q.query_legs[0].origin_place_id.iata, Some("TPE".to_string()));
        assert_eq!(q.query_legs[0].destination_place_id.iata, Some("NRT".to_string()));
        assert_eq!(q.query_legs[0].date, *out);
        assert_eq!(q.query_legs[1].origin_place_id.iata, Some("NRT".to_string()));
        assert_eq!(q.query_legs[1].destination_place_id.iata, Some("TPE".to_string()));
        assert_eq!(q.query_legs[1].date, *back);
    }
}
