use country_refresh::model::{CountryRecord, Currency, RateTable, RawCountry};
use country_refresh::normalize::normalize_all;
use country_refresh::persist::{PersistAction, PersistError, PersistEvent, PersistRun};
use country_refresh::table::CountryTable;

fn record(name: &str, population: u64, gdp: u128) -> CountryRecord {
    CountryRecord {
        name: name.to_string(),
        capital: None,
        region: Some("Europe".to_string()),
        population,
        currency_code: Some("EUR".to_string()),
        exchange_rate: Some(1_000_000),
        estimated_gdp: gdp,
        flag_url: Some("f.png".to_string()),
        last_refreshed_at: 0,
    }
}

#[test]
fn names_differing_in_case_share_one_row() {
    let mut t = CountryTable::new();
    t.upsert(record("France", 10, 100), 1);
    t.upsert(record("FRANCE", 20, 200), 2);
    assert_eq!(t.len(), 1);
    let r = t.row(0);
    assert_eq!(r.name, "France");
    assert_eq!(r.population, 20);
    assert_eq!(r.estimated_gdp, 200);
    assert_eq!(r.last_refreshed_at, 2);
    assert_eq!(t.find("fRaNcE"), Some(0));
    assert_eq!(t.find("Spain"), None);
}

#[test]
fn new_names_add_rows() {
    let mut t = CountryTable::new();
    t.apply_batch(&vec![record("France", 1, 1), record("Spain", 2, 2), record("france", 3, 3)], 5);
    assert_eq!(t.len(), 2);
    assert_eq!(t.row(0).name, "France");
    assert_eq!(t.row(0).population, 3);
    assert_eq!(t.row(1).name, "Spain");
    assert_eq!(t.row(1).last_refreshed_at, 5);
}

#[test]
fn refresh_twice_keeps_rows_and_advances_time() {
    let mut rates = RateTable::new("USD".to_string(), "d".to_string());
    rates.insert("EUR".to_string(), 500_000);
    let raws = vec![
        RawCountry {
            name: "France".to_string(),
            capital: Some("Paris".to_string()),
            region: Some("Europe".to_string()),
            population: 67,
            flag: "fr.png".to_string(),
            currencies: vec![Currency { code: Some("EUR".to_string()) }],
        },
        RawCountry {
            name: "Nowhere".to_string(),
            capital: None,
            region: None,
            population: 0,
            flag: "x.png".to_string(),
            currencies: vec![],
        },
    ];
    let ms = vec![1234, 1777];
    let mut t = CountryTable::new();
    t.apply_batch(&normalize_all(&raws, &rates, 100, &ms), 100);
    let first = t.row(0).duplicate();
    t.apply_batch(&normalize_all(&raws, &rates, 200, &ms), 200);
    assert_eq!(t.len(), 1);
    let second = t.row(0);
    assert_eq!(second.estimated_gdp, first.estimated_gdp);
    assert_eq!(second.estimated_gdp, 67 * 1234 * 2 * 100);
    assert_eq!(second.name, first.name);
    assert_eq!(second.capital, first.capital);
    assert_eq!(second.exchange_rate, first.exchange_rate);
    assert_eq!(first.last_refreshed_at, 100);
    assert_eq!(second.last_refreshed_at, 200);
}

#[test]
fn refresh_twice_with_other_draws_keeps_row_count() {
    let mut rates = RateTable::new("USD".to_string(), "d".to_string());
    rates.insert("EUR".to_string(), 1_000_000);
    let raws = vec![
        RawCountry {
            name: "France".to_string(),
            capital: None,
            region: None,
            population: 5,
            flag: "fr.png".to_string(),
            currencies: vec![Currency { code: Some("EUR".to_string()) }],
        },
        RawCountry {
            name: "FRANCE".to_string(),
            capital: None,
            region: None,
            population: 6,
            flag: "fr.png".to_string(),
            currencies: vec![Currency { code: Some("EUR".to_string()) }],
        },
    ];
    let mut t = CountryTable::new();
    t.apply_batch(&normalize_all(&raws, &rates, 10, &vec![1000, 1000]), 10);
    assert_eq!(t.len(), 1);
    t.apply_batch(&normalize_all(&raws, &rates, 20, &vec![2000, 1500]), 20);
    assert_eq!(t.len(), 1);
    assert_eq!(t.row(0).name, "France");
    assert_eq!(t.row(0).population, 6);
    assert_eq!(t.row(0).estimated_gdp, 6 * 1500 * 100);
    assert_eq!(t.row(0).last_refreshed_at, 20);
}

#[test]
fn persist_batch_commits_after_every_write() {
    let (mut run, a) = PersistRun::start(2);
    assert_eq!(a, PersistAction::Begin);
    assert_eq!(run.step(PersistEvent::Began), PersistAction::LookUp(0));
    assert_eq!(run.step(PersistEvent::Found(7)), PersistAction::Update(0, 7));
    assert_eq!(run.step(PersistEvent::Written), PersistAction::LookUp(1));
    assert_eq!(run.step(PersistEvent::Missing), PersistAction::Insert(1));
    assert_eq!(run.step(PersistEvent::Written), PersistAction::Commit);
    assert_eq!(run.outcome(), None);
    assert_eq!(run.step(PersistEvent::Committed), PersistAction::Stop);
    assert_eq!(run.outcome(), Some(Ok(())));
}

#[test]
fn persist_failure_rolls_back() {
    let (mut run, _) = PersistRun::start(3);
    run.step(PersistEvent::Began);
    run.step(PersistEvent::Missing);
    run.step(PersistEvent::Written);
    assert_eq!(run.step(PersistEvent::Failed), PersistAction::Rollback);
    assert_eq!(run.outcome(), Some(Err(PersistError)));
    assert_eq!(run.step(PersistEvent::Written), PersistAction::Stop);
}

#[test]
fn persist_of_empty_batch_commits() {
    let (mut run, _) = PersistRun::start(0);
    assert_eq!(run.step(PersistEvent::Began), PersistAction::Commit);
    assert_eq!(run.step(PersistEvent::Failed), PersistAction::Rollback);
    assert_eq!(run.outcome(), Some(Err(PersistError)));
}
