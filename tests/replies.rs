use country_refresh::summary::summary_lines;
use country_refresh::model::{Currency, RateTable, RawCountry};
use country_refresh::query::{
    build_list_query, check_name, country_reply, delete_reply, image_reply, status_reply, ListParams, StoreError,
};
use country_refresh::refresh::{RefreshAction, RefreshEvent, RefreshPhase, RefreshRun};

#[test]
fn unknown_country_is_not_found() {
    let r = country_reply::<u32>(Ok(None));
    let e = r.err().unwrap();
    assert_eq!(e.status, 404);
    assert_eq!(e.error, "Country not found");
    assert_eq!(e.details, None);
    assert_eq!(country_reply::<u32>(Err(StoreError)).err().unwrap().status, 500);
}

#[test]
fn blank_path_name_is_invalid() {
    let e = check_name("  ").unwrap();
    assert_eq!(e.status, 400);
    assert_eq!(e.error, "Validation failed");
    assert_eq!(e.details, Some("name is required".to_string()));
    assert!(check_name("France").is_none());
}

#[test]
fn delete_answers() {
    assert!(delete_reply(Ok(1)).is_ok());
    let e = delete_reply(Ok(0)).err().unwrap();
    assert_eq!((e.status, e.error.as_str()), (404, "Country not found"));
    assert_eq!(e.details, None);
    let e = delete_reply(Err(StoreError)).err().unwrap();
    assert_eq!((e.status, e.error.as_str(), e.details), (500, "Internal server error", None));
}

#[test]
fn image_answers() {
    assert!(image_reply(true).is_ok());
    let e = image_reply(false).err().unwrap();
    assert_eq!((e.status, e.error.as_str()), (404, "Summary image not found"));
    assert_eq!(e.details, None);
}

#[test]
fn status_formats_latest_time() {
    let s = status_reply(Ok(3), Ok(Some(947_638_923_004))).ok().unwrap();
    assert_eq!(s.total_countries, 3);
    assert_eq!(s.last_refreshed_at, Some("2000-01-12T01:02:03.004+00:00".to_string()));
    let empty = status_reply(Ok(0), Ok(None)).ok().unwrap();
    assert_eq!(empty.last_refreshed_at, None);
    let e = status_reply(Ok(1), Err(StoreError)).err().unwrap();
    assert_eq!((e.status, e.error.as_str(), e.details), (500, "Internal server error", None));
}

const SELECT: &str = "SELECT id, name, capital, region, population, currency_code, exchange_rate, estimated_gdp, flag_url, last_refreshed_at FROM countries";

#[test]
fn list_query_without_filters() {
    let q = build_list_query(&ListParams { region: None, currency: Some(" ".to_string()), sort: Some("name".to_string()) });
    assert_eq!(q.sql, SELECT);
    assert!(q.binds.is_empty());
}

#[test]
fn list_query_with_filters_and_order() {
    let q = build_list_query(&ListParams {
        region: Some("Africa".to_string()),
        currency: Some("NGN".to_string()),
        sort: Some("gdp_desc".to_string()),
    });
    assert_eq!(q.sql, format!("{} WHERE region = ? AND currency_code = ? ORDER BY estimated_gdp DESC", SELECT));
    assert_eq!(q.binds, vec!["Africa".to_string(), "NGN".to_string()]);
    let q = build_list_query(&ListParams { region: None, currency: Some("NGN".to_string()), sort: Some("gdp_asc".to_string()) });
    assert_eq!(q.sql, format!("{} WHERE currency_code = ? ORDER BY estimated_gdp ASC", SELECT));
    assert_eq!(q.binds, vec!["NGN".to_string()]);
}

fn wakanda() -> RawCountry {
    RawCountry {
        name: "Wakanda".to_string(),
        capital: None,
        region: None,
        population: 1000,
        flag: "f.png".to_string(),
        currencies: vec![Currency { code: Some("WKD".to_string()) }],
    }
}

#[test]
fn rates_failure_answers_unavailable_and_persists_nothing() {
    let (mut run, a) = RefreshRun::start();
    assert!(matches!(a, RefreshAction::FetchCountries));
    assert!(matches!(run.step(RefreshEvent::CountriesFetched(vec![wakanda()])), RefreshAction::FetchRates));
    match run.step(RefreshEvent::RatesFailed("HTTP 500".to_string())) {
        RefreshAction::Respond(Err(e)) => {
            assert_eq!(e.status, 503);
            assert_eq!(e.error, "External data source unavailable");
            assert_eq!(e.details, Some("Could not fetch data from open.er-api.com: HTTP 500".to_string()));
        }
        _ => panic!("expected an error answer"),
    }
    assert_eq!(run.phase, RefreshPhase::Done);
    assert!(matches!(run.step(RefreshEvent::Persisted), RefreshAction::Stop));
}

#[test]
fn countries_failure_names_the_catalog() {
    let (mut run, _) = RefreshRun::start();
    match run.step(RefreshEvent::CountriesFailed("timeout".to_string())) {
        RefreshAction::Respond(Err(e)) => {
            assert_eq!(e.status, 503);
            assert_eq!(e.details, Some("Could not fetch data from restcountries.com: timeout".to_string()));
        }
        _ => panic!("expected an error answer"),
    }
}

#[test]
fn full_refresh_run_succeeds_even_if_render_fails() {
    let (mut run, _) = RefreshRun::start();
    run.step(RefreshEvent::CountriesFetched(vec![wakanda()]));
    let mut rates = RateTable::new("USD".to_string(), "d".to_string());
    rates.insert("WKD".to_string(), 2_000_000);
    let now = match run.step(RefreshEvent::RatesFetched(rates)) {
        RefreshAction::Persist(records, now) => {
            assert_eq!(records.len(), 1);
            assert_eq!(records[0].last_refreshed_at, now);
            assert!(records[0].estimated_gdp >= 50_000_000 && records[0].estimated_gdp <= 100_000_000);
            now
        }
        _ => panic!("expected a persist"),
    };
    assert!(matches!(run.step(RefreshEvent::Persisted), RefreshAction::Render(t) if t == now));
    match run.step(RefreshEvent::RenderFailed) {
        RefreshAction::Respond(Ok(s)) => {
            assert_eq!(s.refreshed_at, now);
            let text = s.refreshed_at_text.unwrap();
            assert!(text.ends_with("+00:00"));
            assert_eq!(text.as_bytes()[10], b'T');
        }
        _ => panic!("expected success"),
    }
}

#[test]
fn persist_failure_answers_internal_error() {
    let (mut run, _) = RefreshRun::start();
    run.step(RefreshEvent::CountriesFetched(vec![]));
    run.step(RefreshEvent::RatesFetched(RateTable::new("USD".to_string(), "d".to_string())));
    match run.step(RefreshEvent::PersistFailed) {
        RefreshAction::Respond(Err(e)) => {
            assert_eq!(e.status, 500);
            assert_eq!(e.error, "Internal server error");
            assert_eq!(e.details, None);
        }
        _ => panic!("expected an error answer"),
    }
}

#[test]
fn summary_layout() {
    let top: Vec<(String, String)> = (1..=7).map(|i| (format!("C{}", i), format!("{}.00", i * 10))).collect();
    let lines = summary_lines(1234, &top, 947_638_923_004);
    assert_eq!(lines.len(), 8);
    assert_eq!((lines[0].text.as_str(), lines[0].x, lines[0].y, lines[0].size), ("Country Summary", 50, 50, 30));
    assert_eq!((lines[1].text.as_str(), lines[1].y, lines[1].size), ("Total Countries: 1234", 100, 20));
    assert_eq!((lines[2].text.as_str(), lines[2].y, lines[2].size), ("C1: 10.00", 150, 16));
    assert_eq!((lines[6].text.as_str(), lines[6].y), ("C5: 50.00", 270));
    assert_eq!((lines[7].text.as_str(), lines[7].y), ("Last Refreshed: 2000-01-12T01:02:03.004+00:00", 350));
}

#[test]
fn summary_of_empty_store() {
    let lines = summary_lines(0, &vec![], 0);
    assert_eq!(lines.len(), 3);
    assert_eq!(lines[1].text, "Total Countries: 0");
    assert_eq!((lines[2].text.as_str(), lines[2].y), ("Last Refreshed: 1970-01-01T00:00:00+00:00", 200));
}
