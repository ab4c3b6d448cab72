use vstd::prelude::*;

verus! {

/// One currency entry of a fetched country; its code may be absent.
pub struct Currency {
    pub code: Option<String>,
}

/// A country entry as the catalog source delivers it.
pub struct RawCountry {
    pub name: String,
    pub capital: Option<String>,
    pub region: Option<String>,
    pub population: u64,
    pub flag: String,
    pub currencies: Vec<Currency>,
}

/// Exchange rates are held in millionths of a unit per US dollar.
pub const RATE_SCALE: u64 = 1_000_000;

/// Estimates are held in hundredths of a unit; a product divided by a rate
/// in millionths is scaled by this factor, `RATE_SCALE` times 100.
pub const ESTIMATE_FACTOR: u64 = 100_000_000;

/// The exchange-rate table: a base currency, its as-of date, and rates keyed
/// by currency code, each code at most once.
pub struct RateTable {
    pub base: String,
    pub date: String,
    pub rates: Vec<(String, u64)>,
}

/// A normalised country row. `exchange_rate` is in millionths (see
/// `RATE_SCALE`), `estimated_gdp` in hundredths of a unit rounded down, and
/// `last_refreshed_at` in milliseconds since the Unix epoch.
pub struct CountryRecord {
    pub name: String,
    pub capital: Option<String>,
    pub region: Option<String>,
    pub population: u64,
    pub currency_code: Option<String>,
    pub exchange_rate: Option<u64>,
    pub estimated_gdp: u128,
    pub flag_url: Option<String>,
    pub last_refreshed_at: i64,
}

/// The rate listed for `code`, taken from the last entry with that code.
pub open spec fn rate_of(rates: Seq<(String, u64)>, code: Seq<char>) -> Option<u64>
    decreases rates.len(),
{
    if rates.len() == 0 {
        None
    } else if rates.last().0@ == code {
        Some(rates.last().1)
    } else {
        rate_of(rates.drop_last(), code)
    }
}

/// A copy of an optional text field.
pub fn clone_text(o: &Option<String>) -> (r: Option<String>)
    ensures
        r == *o,
{
    match o {
        Some(s) => Some(s.clone()),
        None => None,
    }
}

impl RateTable {
    /// Each currency code occurs at most once.
    pub open spec fn wf(&self) -> bool {
        forall|i: int, j: int|
            0 <= i < j < self.rates@.len() ==> #[trigger] self.rates@[i].0@ != #[trigger] self.rates@[j].0@
    }

    pub open spec fn rate_spec(&self, code: Seq<char>) -> Option<u64> {
        rate_of(self.rates@, code)
    }

    pub fn new(base: String, date: String) -> (r: RateTable)
        ensures
            r.wf(),
            r.base == base,
            r.date == date,
            r.rates@.len() == 0,
            forall|c: Seq<char>| r.rate_spec(c) is None,
    {
        RateTable { base, date, rates: Vec::new() }
    }

    /// The rate of `code`, if the table lists it.
    pub fn rate(&self, code: &String) -> (r: Option<u64>)
        ensures
            r == self.rate_spec(code@),
    {
        let mut i: usize = self.rates.len();
        assert(self.rates@.subrange(0, i as int) =~= self.rates@);
        while i > 0
            invariant
                i <= self.rates@.len(),
                rate_of(self.rates@, code@) == rate_of(self.rates@.subrange(0, i as int), code@),
            decreases i,
        {
            let ghost pre = self.rates@.subrange(0, i as int);
            assert(pre.drop_last() =~= self.rates@.subrange(0, i - 1));
            if self.rates[i - 1].0 == *code {
                return Some(self.rates[i - 1].1);
            }
            i = i - 1;
        }
        None
    }

    /// Sets the rate of `code`, replacing the one it had.
    pub fn insert(&mut self, code: String, rate: u64)
        requires
            old(self).wf(),
        ensures
            final(self).wf(),
            final(self).base == old(self).base,
            final(self).date == old(self).date,
            final(self).rate_spec(code@) == Some(rate),
            forall|c: Seq<char>| c != code@ ==> final(self).rate_spec(c) == old(self).rate_spec(c),
    {
        let mut i: usize = 0;
        while i < self.rates.len()
            invariant
                self.wf(),
                *self == *old(self),
                i <= self.rates@.len(),
                forall|j: int| 0 <= j < i ==> #[trigger] self.rates@[j].0@ != code@,
            decreases self.rates@.len() - i,
        {
            if self.rates[i].0 == code {
                let ghost before = self.rates@;
                self.rates.set(i, (code, rate));
                proof {
                    lemma_rate_of_replace(before, i as int, self.rates@);
                }
                return;
            }
            i = i + 1;
        }
        let ghost before = self.rates@;
        self.rates.push((code, rate));
        proof {
            assert(self.rates@.drop_last() =~= before);
        }
    }
}

/// Replacing the rate of the only entry with a code changes the rate of that
/// code alone.
proof fn lemma_rate_of_replace(before: Seq<(String, u64)>, i: int, after: Seq<(String, u64)>)
    requires
        0 <= i < before.len(),
        after.len() == before.len(),
        after[i].0@ == before[i].0@,
        forall|j: int| 0 <= j < before.len() && j != i ==> after[j] == before[j],
        forall|j: int| 0 <= j < before.len() && j != i ==> #[trigger] before[j].0@ != before[i].0@,
    ensures
        rate_of(after, before[i].0@) == Some(after[i].1),
        forall|c: Seq<char>| c != before[i].0@ ==> rate_of(after, c) == rate_of(before, c),
    decreases before.len(),
{
    let n = before.len();
    let key = before[i].0@;
    if i == n - 1 {
        assert(after.drop_last() =~= before.drop_last());
    } else {
        lemma_rate_of_replace(before.drop_last(), i, after.drop_last());
        assert(after.last() == before.last());
        assert(before.last().0@ != key);
    }
    assert forall|c: Seq<char>| c != key implies rate_of(after, c) == rate_of(before, c) by {
        if i == n - 1 {
            assert(after.drop_last() =~= before.drop_last());
            assert(after.last().0@ == key);
            assert(before.last().0@ == key);
        } else {
            assert(rate_of(after.drop_last(), c) == rate_of(before.drop_last(), c));
        }
    }
}

} // verus!
