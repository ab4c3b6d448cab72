use vstd::prelude::*;
use crate::model::{clone_text, CountryRecord, Currency, ESTIMATE_FACTOR, RateTable, RawCountry};
use crate::sources::{MULTIPLIER_MAX, MULTIPLIER_MIN};
use crate::text::{is_blank, trim_of};

verus! {

/// An entry is kept when its name holds more than white space and its
/// population is not zero.
pub open spec fn accepted(raw: RawCountry) -> bool {
    trim_of(raw.name@).len() > 0 && raw.population > 0
}

/// The currency code of an entry: the code of its first currency, unless the
/// list is empty or that code is absent or blank.
pub open spec fn selected_code(currencies: Seq<Currency>) -> Option<String> {
    if currencies.len() == 0 {
        None
    } else {
        match currencies[0].code {
            Some(c) => if trim_of(c@).len() == 0 { None } else { Some(c) },
            None => None,
        }
    }
}

/// The rate that a code resolves to: present when the table lists the code
/// with a rate above zero.
pub open spec fn resolved_rate(code: Option<String>, rates: RateTable) -> Option<u64> {
    match code {
        Some(c) => match rates.rate_spec(c@) {
            Some(r) => if r > 0 { Some(r) } else { None },
            None => None,
        },
        None => None,
    }
}

/// `population * multiplier / rate` in hundredths, where `rate` is in
/// millionths; rounded down.
pub open spec fn gdp_of(population: u64, multiplier: u64, rate: u64) -> int {
    (population * multiplier * ESTIMATE_FACTOR) as int / rate as int
}

/// The record that an entry becomes in a refresh at `now`, with the given
/// multiplier.
pub open spec fn normalized(raw: RawCountry, rates: RateTable, now: i64, multiplier: u64) -> Option<
    CountryRecord,
> {
    if !accepted(raw) {
        None
    } else {
        let code = selected_code(raw.currencies@);
        let rate = resolved_rate(code, rates);
        Some(
            CountryRecord {
                name: raw.name,
                capital: raw.capital,
                region: raw.region,
                population: raw.population,
                currency_code: code,
                exchange_rate: rate,
                estimated_gdp: match rate {
                    Some(r) => gdp_of(raw.population, multiplier, r) as u128,
                    None => 0,
                },
                flag_url: Some(raw.flag),
                last_refreshed_at: now,
            },
        )
    }
}

/// The first non-blank currency code of the entry, as `selected_code` says.
pub fn select_currency(currencies: &Vec<Currency>) -> (r: Option<String>)
    ensures
        r == selected_code(currencies@),
{
    if currencies.len() == 0 {
        return None;
    }
    match &currencies[0].code {
        Some(c) => if is_blank(c.as_str()) {
            None
        } else {
            Some(c.clone())
        },
        None => None,
    }
}

/// The derived economic estimate: `population * multiplier / rate`, with the
/// rate in millionths, in hundredths rounded down.
pub fn estimate_gdp(population: u64, multiplier: u64, rate: u64) -> (r: u128)
    requires
        multiplier <= MULTIPLIER_MAX,
        rate > 0,
    ensures
        r == gdp_of(population, multiplier, rate),
{
    assert(population * multiplier <= population * MULTIPLIER_MAX) by (nonlinear_arith)
        requires multiplier <= MULTIPLIER_MAX;
    assert(population * multiplier * ESTIMATE_FACTOR <= u64::MAX * MULTIPLIER_MAX * ESTIMATE_FACTOR)
        by (nonlinear_arith)
        requires population * multiplier <= population * MULTIPLIER_MAX, population <= u64::MAX;
    let p: u128 = population as u128 * multiplier as u128 * ESTIMATE_FACTOR as u128;
    p / rate as u128
}

/// Turns a fetched entry into the record stored for it, or `None` when the
/// entry is rejected. The multiplier is the one drawn for this entry.
pub fn normalize(raw: &RawCountry, rates: &RateTable, now: i64, multiplier: u64) -> (r: Option<
    CountryRecord,
>)
    requires
        MULTIPLIER_MIN <= multiplier <= MULTIPLIER_MAX,
    ensures
        r == normalized(*raw, *rates, now, multiplier),
{
    if is_blank(raw.name.as_str()) || raw.population == 0 {
        return None;
    }
    let code = select_currency(&raw.currencies);
    let rate: Option<u64> = match &code {
        Some(c) => match rates.rate(c) {
            Some(x) => if x > 0 { Some(x) } else { None },
            None => None,
        },
        None => None,
    };
    let gdp: u128 = match rate {
        Some(x) => estimate_gdp(raw.population, multiplier, x),
        None => 0,
    };
    Some(
        CountryRecord {
            name: raw.name.clone(),
            capital: clone_text(&raw.capital),
            region: clone_text(&raw.region),
            population: raw.population,
            currency_code: code,
            exchange_rate: rate,
            estimated_gdp: gdp,
            flag_url: Some(raw.flag.clone()),
            last_refreshed_at: now,
        },
    )
}

/// The records that a batch of entries becomes, in order, rejected entries
/// left out; entry `i` is normalised with `multipliers[i]`.
pub open spec fn normalized_all(
    raws: Seq<RawCountry>,
    rates: RateTable,
    now: i64,
    multipliers: Seq<u64>,
) -> Seq<CountryRecord>
    decreases raws.len(),
{
    if raws.len() == 0 {
        Seq::empty()
    } else {
        let init = normalized_all(raws.drop_last(), rates, now, multipliers);
        match normalized(raws.last(), rates, now, multipliers[raws.len() - 1]) {
            Some(c) => init.push(c),
            None => init,
        }
    }
}

pub open spec fn multipliers_in_range(ms: Seq<u64>) -> bool {
    forall|i: int| 0 <= i < ms.len() ==> MULTIPLIER_MIN <= #[trigger] ms[i] <= MULTIPLIER_MAX
}

/// Normalises a batch with the multipliers given, one per entry.
pub fn normalize_all(raws: &Vec<RawCountry>, rates: &RateTable, now: i64, multipliers: &Vec<u64>) -> (r:
    Vec<CountryRecord>)
    requires
        multipliers@.len() == raws@.len(),
        multipliers_in_range(multipliers@),
    ensures
        r@ == normalized_all(raws@, *rates, now, multipliers@),
{
    let mut out: Vec<CountryRecord> = Vec::new();
    let mut i: usize = 0;
    while i < raws.len()
        invariant
            i <= raws@.len(),
            multipliers@.len() == raws@.len(),
            multipliers_in_range(multipliers@),
            out@ == normalized_all(raws@.subrange(0, i as int), *rates, now, multipliers@),
        decreases raws@.len() - i,
    {
        assert(raws@.subrange(0, i + 1).drop_last() =~= raws@.subrange(0, i as int));
        let m = multipliers[i];
        match normalize(&raws[i], rates, now, m) {
            Some(c) => out.push(c),
            None => {},
        }
        i = i + 1;
    }
    assert(raws@.subrange(0, raws@.len() as int) =~= raws@);
    out
}

/// Draws one multiplier for each of `n` entries.
pub fn draw_multipliers(n: usize) -> (r: Vec<u64>)
    ensures
        r@.len() == n,
        multipliers_in_range(r@),
{
    let mut out: Vec<u64> = Vec::new();
    let mut i: usize = 0;
    while i < n
        invariant
            i <= n,
            out@.len() == i,
            multipliers_in_range(out@),
        decreases n - i,
    {
        let m = crate::sources::draw_multiplier();
        out.push(m);
        i = i + 1;
    }
    out
}

} // verus!
