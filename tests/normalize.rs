use country_refresh::model::{CountryRecord, Currency, RateTable, RawCountry};
use country_refresh::normalize::{estimate_gdp, normalize, normalize_all, select_currency};
use country_refresh::text::is_blank;

fn raw(name: &str, population: u64, codes: Vec<Option<&str>>) -> RawCountry {
    RawCountry {
        name: name.to_string(),
        capital: Some("Capital".to_string()),
        region: Some("Africa".to_string()),
        population,
        flag: "f.png".to_string(),
        currencies: codes.into_iter().map(|c| Currency { code: c.map(|s| s.to_string()) }).collect(),
    }
}

fn table(entries: &[(&str, u64)]) -> RateTable {
    let mut t = RateTable::new("USD".to_string(), "2024-01-01".to_string());
    for (code, rate) in entries {
        t.insert(code.to_string(), *rate);
    }
    t
}

#[test]
fn wakanda_estimate_with_pinned_multiplier() {
    let rates = table(&[("WKD", 2_000_000)]);
    let c: CountryRecord = normalize(&raw("Wakanda", 1000, vec![Some("WKD")]), &rates, 42, 1500).unwrap();
    assert_eq!(c.estimated_gdp, 75_000_000);
    assert_eq!(c.exchange_rate, Some(2_000_000));
    assert_eq!(c.currency_code, Some("WKD".to_string()));
    assert_eq!(c.flag_url, Some("f.png".to_string()));
    assert_eq!(c.last_refreshed_at, 42);
    assert_eq!(c.name, "Wakanda");
    assert_eq!(c.population, 1000);
}

#[test]
fn blank_name_is_rejected() {
    let rates = table(&[("WKD", 2_000_000)]);
    assert!(normalize(&raw("", 1000, vec![Some("WKD")]), &rates, 1, 1500).is_none());
    assert!(normalize(&raw("  \t ", 1000, vec![Some("WKD")]), &rates, 1, 1500).is_none());
}

#[test]
fn zero_population_is_rejected() {
    let rates = table(&[("WKD", 2_000_000)]);
    assert!(normalize(&raw("Wakanda", 0, vec![Some("WKD")]), &rates, 1, 1500).is_none());
}

#[test]
fn unknown_currency_gives_zero_estimate() {
    let rates = table(&[("USD", 1_000_000)]);
    let c = normalize(&raw("Wakanda", 1000, vec![Some("WKD")]), &rates, 1, 1500).unwrap();
    assert_eq!(c.currency_code, Some("WKD".to_string()));
    assert_eq!(c.exchange_rate, None);
    assert_eq!(c.estimated_gdp, 0);
}

#[test]
fn zero_rate_does_not_resolve() {
    let rates = table(&[("WKD", 0)]);
    let c = normalize(&raw("Wakanda", 1000, vec![Some("WKD")]), &rates, 1, 1500).unwrap();
    assert_eq!(c.exchange_rate, None);
    assert_eq!(c.estimated_gdp, 0);
}

#[test]
fn missing_or_blank_first_code_gives_no_currency() {
    assert_eq!(select_currency(&vec![]), None);
    assert_eq!(select_currency(&vec![Currency { code: None }, Currency { code: Some("EUR".to_string()) }]), None);
    assert_eq!(select_currency(&vec![Currency { code: Some("  ".to_string()) }]), None);
    assert_eq!(
        select_currency(&vec![Currency { code: Some("EUR".to_string()) }, Currency { code: Some("USD".to_string()) }]),
        Some("EUR".to_string())
    );
    let rates = table(&[("EUR", 1_000_000)]);
    let c = normalize(&raw("Nowhere", 5, vec![]), &rates, 1, 1000).unwrap();
    assert_eq!(c.currency_code, None);
    assert_eq!(c.exchange_rate, None);
    assert_eq!(c.estimated_gdp, 0);
}

#[test]
fn estimate_formula_values() {
    assert_eq!(estimate_gdp(1000, 1500, 2_000_000), 75_000_000);
    assert_eq!(estimate_gdp(3, 1000, 7_000_000), 42_857);
    assert_eq!(estimate_gdp(u64::MAX, 2000, 1), u64::MAX as u128 * 2000 * 100_000_000);
    assert_eq!(estimate_gdp(0, 2000, 5), 0);
}

#[test]
fn estimate_stays_within_multiplier_bounds() {
    let rates = table(&[("GBP", 790_000)]);
    let low = 123_456u128 * 1000 * 100_000_000 / 790_000;
    let high = 123_456u128 * 2000 * 100_000_000 / 790_000;
    for m in [1000u64, 1001, 1500, 1999, 2000] {
        let c = normalize(&raw("Kingdom", 123_456, vec![Some("GBP")]), &rates, 1, m).unwrap();
        assert!(low <= c.estimated_gdp && c.estimated_gdp <= high);
    }
}

#[test]
fn batch_drops_rejected_entries_in_order() {
    let rates = table(&[("EUR", 1_000_000)]);
    let raws = vec![
        raw("France", 10, vec![Some("EUR")]),
        raw(" ", 10, vec![Some("EUR")]),
        raw("Empty", 0, vec![Some("EUR")]),
        raw("Spain", 20, vec![Some("EUR")]),
    ];
    let out = normalize_all(&raws, &rates, 9, &vec![1000, 1000, 1000, 2000]);
    assert_eq!(out.len(), 2);
    assert_eq!(out[0].name, "France");
    assert_eq!(out[0].estimated_gdp, 1_000_000);
    assert_eq!(out[1].name, "Spain");
    assert_eq!(out[1].estimated_gdp, 4_000_000);
}

#[test]
fn rate_table_insert_replaces() {
    let mut t = table(&[("EUR", 900_000), ("GBP", 800_000)]);
    t.insert("EUR".to_string(), 950_000);
    assert_eq!(t.rate(&"EUR".to_string()), Some(950_000));
    assert_eq!(t.rate(&"GBP".to_string()), Some(800_000));
    assert_eq!(t.rate(&"eur".to_string()), None);
    assert_eq!(t.rates.len(), 2);
}

#[test]
fn blank_text() {
    assert!(is_blank(""));
    assert!(is_blank(" \n\t"));
    assert!(!is_blank(" a "));
}
