use vstd::prelude::*;
use crate::model::{clone_text, CountryRecord};
use crate::text::{lower_of, lowercase};

verus! {

/// The natural key of a record: its name, lower-cased.
pub open spec fn key_of(c: CountryRecord) -> Seq<char> {
    lower_of(c.name@)
}

/// True when some row has the natural key `key`.
pub open spec fn has_key(rows: Seq<CountryRecord>, key: Seq<char>) -> bool {
    exists|i: int| 0 <= i < rows.len() && key_of(#[trigger] rows[i]) == key
}

/// The position of the row with the natural key `key`, where there is one.
pub open spec fn key_index(rows: Seq<CountryRecord>, key: Seq<char>) -> int {
    choose|i: int| 0 <= i < rows.len() && key_of(#[trigger] rows[i]) == key
}

/// No two rows share a natural key.
pub open spec fn keys_unique(rows: Seq<CountryRecord>) -> bool {
    forall|i: int, j: int|
        0 <= i < rows.len() && 0 <= j < rows.len() && i != j ==> key_of(#[trigger] rows[i]) != key_of(
            #[trigger] rows[j],
        )
}

/// A new row for `c`, stamped with the refresh time.
pub open spec fn stamped(c: CountryRecord, now: i64) -> CountryRecord {
    CountryRecord { last_refreshed_at: now, ..c }
}

/// An existing row after an update from `c`: it keeps its name, and takes
/// every other field from `c` and the refresh time.
pub open spec fn refreshed(row: CountryRecord, c: CountryRecord, now: i64) -> CountryRecord {
    CountryRecord { name: row.name, last_refreshed_at: now, ..c }
}

/// The rows after the upsert of `c`: the row with the same natural key is
/// updated, or else a row is added.
pub open spec fn upserted(rows: Seq<CountryRecord>, c: CountryRecord, now: i64) -> Seq<CountryRecord> {
    if has_key(rows, key_of(c)) {
        let i = key_index(rows, key_of(c));
        rows.update(i, refreshed(rows[i], c, now))
    } else {
        rows.push(stamped(c, now))
    }
}

/// The rows after the upsert of each record of a batch, in order.
pub open spec fn applied(rows: Seq<CountryRecord>, batch: Seq<CountryRecord>, now: i64) -> Seq<
    CountryRecord,
>
    decreases batch.len(),
{
    if batch.len() == 0 {
        rows
    } else {
        upserted(applied(rows, batch.drop_last(), now), batch.last(), now)
    }
}

/// The stored country rows, at most one per case-insensitive name.
pub struct CountryTable {
    rows: Vec<CountryRecord>,
    keys: Vec<String>,
}

impl View for CountryTable {
    type V = Seq<CountryRecord>;

    closed spec fn view(&self) -> Seq<CountryRecord> {
        self.rows@
    }
}

impl CountryRecord {
    /// A field-by-field copy of the record.
    pub fn duplicate(&self) -> (r: CountryRecord)
        ensures
            r == *self,
    {
        CountryRecord {
            name: self.name.clone(),
            capital: clone_text(&self.capital),
            region: clone_text(&self.region),
            population: self.population,
            currency_code: clone_text(&self.currency_code),
            exchange_rate: self.exchange_rate,
            estimated_gdp: self.estimated_gdp,
            flag_url: clone_text(&self.flag_url),
            last_refreshed_at: self.last_refreshed_at,
        }
    }
}

impl CountryTable {
    pub closed spec fn wf(&self) -> bool {
        &&& self.keys@.len() == self.rows@.len()
        &&& forall|i: int| 0 <= i < self.rows@.len() ==> (#[trigger] self.keys@[i])@ == key_of(self.rows@[i])
        &&& keys_unique(self.rows@)
    }

    pub fn new() -> (r: CountryTable)
        ensures
            r.wf(),
            r@ == Seq::<CountryRecord>::empty(),
    {
        CountryTable { rows: Vec::new(), keys: Vec::new() }
    }

    pub fn len(&self) -> (r: usize)
        ensures
            r == self@.len(),
    {
        self.rows.len()
    }

    /// The row at position `i`.
    pub fn row(&self, i: usize) -> (r: &CountryRecord)
        requires
            i < self@.len(),
        ensures
            *r == self@[i as int],
    {
        &self.rows[i]
    }

    /// The position of the row whose name matches `name` ignoring case.
    pub fn find(&self, name: &str) -> (r: Option<usize>)
        requires
            self.wf(),
        ensures
            r is None <==> !has_key(self@, lower_of(name@)),
            r matches Some(i) ==> i < self@.len() && key_of(self@[i as int]) == lower_of(name@)
                && i == key_index(self@, lower_of(name@)),
    {
        let key = lowercase(name);
        let mut i: usize = 0;
        while i < self.keys.len()
            invariant
                self.wf(),
                key@ == lower_of(name@),
                i <= self@.len(),
                forall|j: int| 0 <= j < i ==> key_of(#[trigger] self@[j]) != key@,
            decreases self@.len() - i,
        {
            if self.keys[i] == key {
                assert(key_of(self@[i as int]) == key@);
                let ghost k = key_index(self@, key@);
                assert(k == i as int);
                return Some(i);
            }
            i = i + 1;
        }
        None
    }

    /// Updates the row whose name matches `c`'s ignoring case, or adds one;
    /// either way the row is stamped with `now`.
    pub fn upsert(&mut self, c: CountryRecord, now: i64)
        requires
            old(self).wf(),
        ensures
            final(self).wf(),
            final(self)@ == upserted(old(self)@, c, now),
    {
        match self.find(c.name.as_str()) {
            Some(i) => {
                let name = self.rows[i].name.clone();
                let row = CountryRecord { name, last_refreshed_at: now, ..c };
                self.rows.set(i, row);
                proof {
                    let rows = self@;
                    assert forall|a: int, b: int|
                        0 <= a < rows.len() && 0 <= b < rows.len() && a != b implies key_of(
                        #[trigger] rows[a],
                    ) != key_of(#[trigger] rows[b]) by {
                        assert(key_of(rows[i as int]) == key_of(old(self)@[i as int]));
                    }
                }
            },
            None => {
                let key = lowercase(c.name.as_str());
                self.rows.push(CountryRecord { last_refreshed_at: now, ..c });
                self.keys.push(key);
                proof {
                    let rows = self@;
                    let n = old(self)@.len() as int;
                    assert(forall|j: int| 0 <= j < n ==> rows[j] == old(self)@[j]);
                    assert forall|a: int, b: int|
                        0 <= a < rows.len() && 0 <= b < rows.len() && a != b implies key_of(
                        #[trigger] rows[a],
                    ) != key_of(#[trigger] rows[b]) by {
                        if a == n {
                            assert(key_of(old(self)@[b]) != key_of(c));
                        } else if b == n {
                            assert(key_of(old(self)@[a]) != key_of(c));
                        }
                    }
                    assert(self@ =~= upserted(old(self)@, c, now));
                }
            },
        }
    }

    /// Upserts every record of the batch, in order, stamping each with `now`.
    pub fn apply_batch(&mut self, batch: &Vec<CountryRecord>, now: i64)
        requires
            old(self).wf(),
        ensures
            final(self).wf(),
            final(self)@ == applied(old(self)@, batch@, now),
    {
        let mut i: usize = 0;
        while i < batch.len()
            invariant
                self.wf(),
                i <= batch@.len(),
                self@ == applied(old(self)@, batch@.subrange(0, i as int), now),
            decreases batch@.len() - i,
        {
            assert(batch@.subrange(0, i + 1).drop_last() =~= batch@.subrange(0, i as int));
            let c = batch[i].duplicate();
            self.upsert(c, now);
            i = i + 1;
        }
        assert(batch@.subrange(0, batch@.len() as int) =~= batch@);
    }
}

} // verus!
