use vstd::prelude::*;
use vstd::arithmetic::div_mod::lemma_div_is_ordered;
use vstd::arithmetic::mul::lemma_mul_inequality;
use crate::model::{CountryRecord, ESTIMATE_FACTOR, RateTable, RawCountry};
use crate::normalize::{gdp_of, multipliers_in_range, normalized, normalized_all};
use crate::persist::{persist_next, PersistAction, PersistEvent, PersistPhase, PersistRun};
use crate::table::{applied, has_key, key_index, key_of, keys_unique, refreshed, stamped, upserted};
use crate::sources::{MULTIPLIER_MAX, MULTIPLIER_MIN};
use crate::text::trim_of;

verus! {

/// The estimate of an accepted entry whose currency resolves to a rate lies
/// between the estimates with the smallest and the largest multiplier; when
/// no rate resolves, the estimate is 0 and no rate is recorded.
pub proof fn gdp_within_bounds(raw: RawCountry, rates: RateTable, now: i64, multiplier: u64)
    requires
        MULTIPLIER_MIN <= multiplier <= MULTIPLIER_MAX,
        normalized(raw, rates, now, multiplier) is Some,
    ensures
        ({
            let c = normalized(raw, rates, now, multiplier).unwrap();
            match c.exchange_rate {
                Some(r) => r > 0 && gdp_of(c.population, MULTIPLIER_MIN, r) <= c.estimated_gdp <= gdp_of(
                    c.population,
                    MULTIPLIER_MAX,
                    r,
                ),
                None => c.estimated_gdp == 0,
            }
        }),
{
    let c = normalized(raw, rates, now, multiplier).unwrap();
    if let Some(r) = c.exchange_rate {
        let p = raw.population as int;
        lemma_mul_inequality(MULTIPLIER_MIN as int, multiplier as int, p);
        lemma_mul_inequality(multiplier as int, MULTIPLIER_MAX as int, p);
        lemma_mul_inequality(p * MULTIPLIER_MIN, p * multiplier, ESTIMATE_FACTOR as int);
        lemma_mul_inequality(p * multiplier, p * MULTIPLIER_MAX, ESTIMATE_FACTOR as int);
        assert(p * multiplier == raw.population * multiplier);
        lemma_div_is_ordered(p * MULTIPLIER_MIN * ESTIMATE_FACTOR, p * multiplier * ESTIMATE_FACTOR, r as int);
        lemma_div_is_ordered(p * multiplier * ESTIMATE_FACTOR, p * MULTIPLIER_MAX * ESTIMATE_FACTOR, r as int);
        lemma_mul_inequality(p, u64::MAX as int, MULTIPLIER_MAX as int);
        lemma_mul_inequality(p * MULTIPLIER_MAX, u64::MAX * MULTIPLIER_MAX, ESTIMATE_FACTOR as int);
        lemma_div_is_ordered(p * multiplier * ESTIMATE_FACTOR, u64::MAX * MULTIPLIER_MAX * ESTIMATE_FACTOR, r as int);
        assert((u64::MAX * MULTIPLIER_MAX * ESTIMATE_FACTOR) / (r as int) <= u64::MAX * MULTIPLIER_MAX
            * ESTIMATE_FACTOR) by (nonlinear_arith)
            requires r >= 1;
    }
}

/// A record is valid when its name holds more than white space and its
/// population is not zero.
pub open spec fn valid(c: CountryRecord) -> bool {
    trim_of(c.name@).len() > 0 && c.population > 0
}

pub open spec fn all_valid(rows: Seq<CountryRecord>) -> bool {
    forall|i: int| 0 <= i < rows.len() ==> valid(#[trigger] rows[i])
}

/// Normalisation keeps only valid records.
pub proof fn normalized_all_valid(raws: Seq<RawCountry>, rates: RateTable, now: i64, ms: Seq<u64>)
    ensures
        all_valid(normalized_all(raws, rates, now, ms)),
    decreases raws.len(),
{
    if raws.len() > 0 {
        normalized_all_valid(raws.drop_last(), rates, now, ms);
    }
}

/// Upserting valid records into valid rows leaves only valid rows.
pub proof fn applied_valid(rows: Seq<CountryRecord>, batch: Seq<CountryRecord>, now: i64)
    requires
        all_valid(rows),
        all_valid(batch),
    ensures
        all_valid(applied(rows, batch, now)),
    decreases batch.len(),
{
    if batch.len() > 0 {
        let init = batch.drop_last();
        assert(all_valid(init)) by {
            assert forall|i: int| 0 <= i < init.len() implies valid(#[trigger] init[i]) by {
                assert(init[i] == batch[i]);
            }
        }
        applied_valid(rows, init, now);
        let t0 = applied(rows, init, now);
        let c = batch.last();
        assert(valid(c));
        if has_key(t0, key_of(c)) {
            let k = key_index(t0, key_of(c));
            assert(valid(t0[k]));
        }
    }
}

/// A refresh never stores a rejected entry: stored rows that were valid
/// stay valid after the normalised batch of any fetched entries is
/// persisted.
pub proof fn refresh_stores_only_valid(
    rows: Seq<CountryRecord>,
    raws: Seq<RawCountry>,
    rates: RateTable,
    now: i64,
    ms: Seq<u64>,
)
    requires
        all_valid(rows),
    ensures
        all_valid(applied(rows, normalized_all(raws, rates, now, ms), now)),
{
    normalized_all_valid(raws, rates, now, ms);
    applied_valid(rows, normalized_all(raws, rates, now, ms), now);
}

/// An upsert keeps the natural keys unique.
pub proof fn upserted_keys_unique(rows: Seq<CountryRecord>, c: CountryRecord, now: i64)
    requires
        keys_unique(rows),
    ensures
        keys_unique(upserted(rows, c, now)),
        upserted(rows, c, now).len() == rows.len() + if has_key(rows, key_of(c)) { 0int } else { 1int },
        has_key(upserted(rows, c, now), key_of(c)),
{
    let r = upserted(rows, c, now);
    if has_key(rows, key_of(c)) {
        let k = key_index(rows, key_of(c));
        assert(key_of(r[k]) == key_of(rows[k]));
        assert forall|i: int, j: int| 0 <= i < r.len() && 0 <= j < r.len() && i != j implies key_of(
            #[trigger] r[i],
        ) != key_of(#[trigger] r[j]) by {
            assert(key_of(r[i]) == key_of(rows[i]));
            assert(key_of(r[j]) == key_of(rows[j]));
        }
    } else {
        let n = rows.len() as int;
        assert(key_of(r[n]) == key_of(c));
        assert forall|i: int, j: int| 0 <= i < r.len() && 0 <= j < r.len() && i != j implies key_of(
            #[trigger] r[i],
        ) != key_of(#[trigger] r[j]) by {
            if i < n && j < n {
                assert(r[i] == rows[i] && r[j] == rows[j]);
            } else if i < n {
                assert(r[i] == rows[i]);
            } else {
                assert(r[j] == rows[j]);
            }
        }
    }
}

/// Two records whose names differ only in case, upserted in turn, share one
/// row: the second upsert adds none and updates the row of the first, which
/// keeps the first one's name and takes the second one's fields.
pub proof fn same_name_ignoring_case_one_row(
    rows: Seq<CountryRecord>,
    first: CountryRecord,
    second: CountryRecord,
    t1: i64,
    t2: i64,
)
    requires
        keys_unique(rows),
        same_key(first, second),
    ensures
        ({
            let r1 = upserted(rows, first, t1);
            let r2 = upserted(r1, second, t2);
            let k = key_index(r1, key_of(first));
            &&& r2.len() == r1.len()
            &&& keys_unique(r2)
            &&& 0 <= k < r1.len()
            &&& r2 == r1.update(k, CountryRecord { name: r1[k].name, last_refreshed_at: t2, ..second })
        }),
{
    upserted_keys_unique(rows, first, t1);
    let r1 = upserted(rows, first, t1);
    upserted_keys_unique(r1, second, t2);
}

/// Two records have the same natural key.
pub open spec fn same_key(a: CountryRecord, b: CountryRecord) -> bool {
    key_of(a) == key_of(b)
}

/// A failure reported at any point before the commit succeeds rolls the
/// whole batch back and ends the persist as failed, for good; and a commit
/// is asked for only once every record of the batch has been written.
pub proof fn persist_is_atomic(total: usize, phase: PersistPhase, event: PersistEvent)
    requires
        (PersistRun { total, phase }).wf(),
    ensures
        phase is Finished ==> persist_next(total, phase, event) == (phase, PersistAction::Stop),
        !(phase is Finished) && event == PersistEvent::Failed ==> persist_next(total, phase, event) == (
            PersistPhase::Finished(false),
            PersistAction::Rollback,
        ),
        persist_next(total, phase, event).1 == PersistAction::Commit ==> (phase == PersistPhase::Writing(
            (total - 1) as usize,
        ) && total >= 1 && event == PersistEvent::Written) || (phase == PersistPhase::Beginning && total
            == 0 && event == PersistEvent::Began),
        persist_next(total, phase, event).0 == PersistPhase::Finished(true) ==> phase
            == PersistPhase::Finished(true) || (phase == PersistPhase::Committing && event
            == PersistEvent::Committed),
{
}

/// The position of the last record of the batch with natural key `k`, or
/// -1 when there is none.
pub open spec fn last_with_key(batch: Seq<CountryRecord>, k: Seq<char>) -> int
    decreases batch.len(),
{
    if batch.len() == 0 {
        -1
    } else if key_of(batch.last()) == k {
        batch.len() - 1
    } else {
        last_with_key(batch.drop_last(), k)
    }
}

/// Every record of the batch has a row.
pub open spec fn covers(rows: Seq<CountryRecord>, batch: Seq<CountryRecord>) -> bool {
    forall|j: int| 0 <= j < batch.len() ==> has_key(rows, key_of(#[trigger] batch[j]))
}

/// Row `i` of `out` holds the last record of the batch with its key, or,
/// where the batch has none, is row `i` of `rows` unchanged.
pub open spec fn row_settled(
    out: Seq<CountryRecord>,
    rows: Seq<CountryRecord>,
    batch: Seq<CountryRecord>,
    t: i64,
    i: int,
) -> bool {
    let j = last_with_key(batch, key_of(out[i]));
    if 0 <= j {
        j < batch.len() && out[i] == refreshed(out[i], batch[j], t)
    } else {
        i < rows.len() && out[i] == rows[i]
    }
}

proof fn lemma_last_with_key(batch: Seq<CountryRecord>, k: Seq<char>)
    ensures
        -1 <= last_with_key(batch, k) < batch.len(),
    decreases batch.len(),
{
    if batch.len() > 0 {
        lemma_last_with_key(batch.drop_last(), k);
    }
}

/// What a batch upsert does to the rows: keys stay unique, existing rows
/// keep their place and name, every row is settled by the batch, every
/// record of the batch has a row, and no row is added where all had one.
proof fn lemma_applied_shape(rows: Seq<CountryRecord>, batch: Seq<CountryRecord>, t: i64)
    requires
        keys_unique(rows),
    ensures
        keys_unique(applied(rows, batch, t)),
        rows.len() <= applied(rows, batch, t).len(),
        forall|i: int| 0 <= i < rows.len() ==> (#[trigger] applied(rows, batch, t)[i]).name == rows[i].name,
        forall|i: int|
            0 <= i < applied(rows, batch, t).len() ==> #[trigger] row_settled(applied(rows, batch, t), rows, batch, t, i),
        covers(applied(rows, batch, t), batch),
        covers(rows, batch) ==> applied(rows, batch, t).len() == rows.len(),
    decreases batch.len(),
{
    if batch.len() == 0 {
        assert forall|i: int| 0 <= i < rows.len() implies #[trigger] row_settled(rows, rows, batch, t, i) by {}
        return;
    }
    let init = batch.drop_last();
    let c = batch.last();
    let n = batch.len() - 1;
    lemma_applied_shape(rows, init, t);
    let t0 = applied(rows, init, t);
    let out = applied(rows, batch, t);
    assert(out == upserted(t0, c, t));
    upserted_keys_unique(t0, c, t);
    assert(forall|j: int| 0 <= j < init.len() ==> init[j] == batch[j]);
    if has_key(t0, key_of(c)) {
        let idx = key_index(t0, key_of(c));
        assert(out == t0.update(idx, refreshed(t0[idx], c, t)));
        assert forall|i: int| 0 <= i < out.len() implies #[trigger] row_settled(out, rows, batch, t, i) by {
            if i == idx {
                assert(key_of(out[i]) == key_of(c));
                assert(last_with_key(batch, key_of(out[i])) == n);
            } else {
                assert(out[i] == t0[i]);
                assert(key_of(t0[i]) != key_of(t0[idx]));
                assert(row_settled(t0, rows, init, t, i));
                lemma_last_with_key(init, key_of(out[i]));
            }
        }
        assert forall|j: int| 0 <= j < batch.len() implies has_key(out, key_of(#[trigger] batch[j])) by {
            if j < n {
                assert(has_key(t0, key_of(init[j])));
                let w = choose|w: int| 0 <= w < t0.len() && key_of(#[trigger] t0[w]) == key_of(init[j]);
                assert(key_of(out[w]) == key_of(t0[w]));
            } else {
                assert(key_of(out[idx]) == key_of(c));
            }
        }
    } else {
        let m = t0.len() as int;
        assert forall|i: int| 0 <= i < out.len() implies #[trigger] row_settled(out, rows, batch, t, i) by {
            if i == m {
                assert(key_of(out[i]) == key_of(c));
                assert(last_with_key(batch, key_of(out[i])) == n);
            } else {
                assert(out[i] == t0[i]);
                assert(key_of(t0[i]) != key_of(c));
                assert(row_settled(t0, rows, init, t, i));
                lemma_last_with_key(init, key_of(out[i]));
            }
        }
        assert forall|j: int| 0 <= j < batch.len() implies has_key(out, key_of(#[trigger] batch[j])) by {
            if j < n {
                assert(has_key(t0, key_of(init[j])));
                let w = choose|w: int| 0 <= w < t0.len() && key_of(#[trigger] t0[w]) == key_of(init[j]);
                assert(out[w] == t0[w]);
            } else {
                assert(key_of(out[m]) == key_of(c));
            }
        }
        if covers(rows, batch) {
            assert(covers(rows, init)) by {
                assert forall|j: int| 0 <= j < init.len() implies has_key(rows, key_of(#[trigger] init[j])) by {
                    assert(has_key(rows, key_of(batch[j])));
                }
            }
            assert(has_key(rows, key_of(batch[n])));
            let w = choose|w: int| 0 <= w < rows.len() && key_of(#[trigger] rows[w]) == key_of(c);
            assert(t0[w].name == rows[w].name);
            assert(key_of(t0[w]) == key_of(c));
        }
    }
    if covers(rows, batch) {
        assert(covers(rows, init)) by {
            assert forall|j: int| 0 <= j < init.len() implies has_key(rows, key_of(#[trigger] init[j])) by {
                assert(has_key(rows, key_of(batch[j])));
            }
        }
    }
}

/// The batch of a refresh at `t2` is the batch of a refresh at `t1` with
/// the same entries and multipliers, restamped.
proof fn lemma_normalized_restamped(raws: Seq<RawCountry>, rates: RateTable, t1: i64, t2: i64, ms: Seq<u64>)
    ensures
        normalized_all(raws, rates, t2, ms).len() == normalized_all(raws, rates, t1, ms).len(),
        forall|j: int|
            0 <= j < normalized_all(raws, rates, t1, ms).len() ==> #[trigger] normalized_all(raws, rates, t2, ms)[j]
                == (CountryRecord { last_refreshed_at: t2, ..normalized_all(raws, rates, t1, ms)[j] }),
    decreases raws.len(),
{
    if raws.len() > 0 {
        lemma_normalized_restamped(raws.drop_last(), rates, t1, t2, ms);
    }
}

/// Whatever multipliers and times two refreshes use, their batches from the
/// same entries hold records with the same names, in the same order.
proof fn lemma_normalized_same_names(
    raws: Seq<RawCountry>,
    rates: RateTable,
    t1: i64,
    t2: i64,
    ms1: Seq<u64>,
    ms2: Seq<u64>,
)
    ensures
        normalized_all(raws, rates, t2, ms2).len() == normalized_all(raws, rates, t1, ms1).len(),
        forall|j: int|
            0 <= j < normalized_all(raws, rates, t1, ms1).len() ==> (#[trigger] normalized_all(raws, rates, t2, ms2)[j]).name
                == normalized_all(raws, rates, t1, ms1)[j].name,
    decreases raws.len(),
{
    if raws.len() > 0 {
        lemma_normalized_same_names(raws.drop_last(), rates, t1, t2, ms1, ms2);
    }
}

/// Refreshing twice from the same fetched entries, whatever multipliers
/// each run draws, leaves as many rows as the first refresh did; every row
/// keeps its name, each row that an accepted entry names carries the first
/// run's time after the first refresh and the second run's time after the
/// second, and every other row is unchanged.
pub proof fn refresh_twice_keeps_row_count(
    rows: Seq<CountryRecord>,
    raws: Seq<RawCountry>,
    rates: RateTable,
    t1: i64,
    t2: i64,
    ms1: Seq<u64>,
    ms2: Seq<u64>,
)
    requires
        keys_unique(rows),
    ensures
        ({
            let b1 = normalized_all(raws, rates, t1, ms1);
            let b2 = normalized_all(raws, rates, t2, ms2);
            let r1 = applied(rows, b1, t1);
            let r2 = applied(r1, b2, t2);
            &&& r2.len() == r1.len()
            &&& forall|i: int| 0 <= i < r2.len() ==> (#[trigger] r2[i]).name == r1[i].name
            &&& forall|i: int|
                0 <= i < r2.len() ==> if last_with_key(b1, key_of(#[trigger] r2[i])) >= 0 {
                    r1[i].last_refreshed_at == t1 && r2[i].last_refreshed_at == t2
                } else {
                    r2[i] == r1[i]
                }
        }),
{
    let b1 = normalized_all(raws, rates, t1, ms1);
    let b2 = normalized_all(raws, rates, t2, ms2);
    lemma_normalized_same_names(raws, rates, t1, t2, ms1, ms2);
    assert(forall|j: int| 0 <= j < b1.len() ==> key_of(#[trigger] b2[j]) == key_of(b1[j]));
    lemma_applied_shape(rows, b1, t1);
    let r1 = applied(rows, b1, t1);
    assert(covers(r1, b2)) by {
        assert forall|j: int| 0 <= j < b2.len() implies has_key(r1, key_of(#[trigger] b2[j])) by {
            assert(has_key(r1, key_of(b1[j])));
        }
    }
    lemma_applied_shape(r1, b2, t2);
    let r2 = applied(r1, b2, t2);
    assert forall|i: int| 0 <= i < r2.len() implies (#[trigger] r2[i]).name == r1[i].name && if last_with_key(
        b1,
        key_of(r2[i]),
    ) >= 0 {
        r1[i].last_refreshed_at == t1 && r2[i].last_refreshed_at == t2
    } else {
        r2[i] == r1[i]
    } by {
        let k = key_of(r2[i]);
        assert(r2[i].name == r1[i].name);
        assert(row_settled(r2, r1, b2, t2, i));
        assert(row_settled(r1, rows, b1, t1, i));
        lemma_last_with_key_same_keys(b2, b1, k);
    }
}

proof fn lemma_last_with_key_same_keys(a: Seq<CountryRecord>, b: Seq<CountryRecord>, k: Seq<char>)
    requires
        a.len() == b.len(),
        forall|j: int| 0 <= j < a.len() ==> key_of(#[trigger] a[j]) == key_of(b[j]),
    ensures
        last_with_key(a, k) == last_with_key(b, k),
    decreases a.len(),
{
    if a.len() > 0 {
        let (a0, b0) = (a.drop_last(), b.drop_last());
        assert(forall|j: int| 0 <= j < a0.len() ==> a0[j] == a[j] && b0[j] == b[j]);
        lemma_last_with_key_same_keys(a0, b0, k);
    }
}

/// Refreshing twice from the same fetched entries, with the same drawn
/// multipliers, leaves as many rows as the first refresh did, with the same
/// values but the refresh time; each row that the second refresh touched
/// carries its time, every other row is unchanged.
pub proof fn refresh_is_idempotent(
    rows: Seq<CountryRecord>,
    raws: Seq<RawCountry>,
    rates: RateTable,
    t1: i64,
    t2: i64,
    ms: Seq<u64>,
)
    requires
        keys_unique(rows),
    ensures
        ({
            let r1 = applied(rows, normalized_all(raws, rates, t1, ms), t1);
            let r2 = applied(r1, normalized_all(raws, rates, t2, ms), t2);
            &&& r2.len() == r1.len()
            &&& forall|i: int|
                0 <= i < r2.len() ==> #[trigger] r2[i] == (CountryRecord { last_refreshed_at: r2[i].last_refreshed_at, ..r1[i] })
            &&& forall|i: int| 0 <= i < r2.len() ==> #[trigger] r2[i].last_refreshed_at == t2 || r2[i] == r1[i]
        }),
{
    let b1 = normalized_all(raws, rates, t1, ms);
    let b2 = normalized_all(raws, rates, t2, ms);
    lemma_normalized_restamped(raws, rates, t1, t2, ms);
    assert(forall|j: int| 0 <= j < b1.len() ==> key_of(#[trigger] b2[j]) == key_of(b1[j]));
    lemma_applied_shape(rows, b1, t1);
    let r1 = applied(rows, b1, t1);
    assert(covers(r1, b2)) by {
        assert forall|j: int| 0 <= j < b2.len() implies has_key(r1, key_of(#[trigger] b2[j])) by {
            assert(has_key(r1, key_of(b1[j])));
        }
    }
    lemma_applied_shape(r1, b2, t2);
    let r2 = applied(r1, b2, t2);
    assert forall|i: int| 0 <= i < r2.len() implies #[trigger] r2[i] == (CountryRecord {
        last_refreshed_at: r2[i].last_refreshed_at,
        ..r1[i]
    }) && (r2[i].last_refreshed_at == t2 || r2[i] == r1[i]) by {
        let k = key_of(r2[i]);
        assert(r2[i].name == r1[i].name);
        assert(row_settled(r2, r1, b2, t2, i));
        assert(row_settled(r1, rows, b1, t1, i));
        lemma_last_with_key_same_keys(b2, b1, k);
        let j = last_with_key(b1, k);
        if 0 <= j {
            assert(b2[j] == (CountryRecord { last_refreshed_at: t2, ..b1[j] }));
        }
    }
}

/// The answer of a store that works: a lookup of record `i` finds the row of
/// the working copy with its natural key, where there is one.
pub open spec fn store_answer(w: Seq<CountryRecord>, batch: Seq<CountryRecord>, a: PersistAction) -> PersistEvent {
    match a {
        PersistAction::Begin => PersistEvent::Began,
        PersistAction::LookUp(i) => if has_key(w, key_of(batch[i as int])) {
            PersistEvent::Found(key_index(w, key_of(batch[i as int])) as i64)
        } else {
            PersistEvent::Missing
        },
        PersistAction::Update(_, _) => PersistEvent::Written,
        PersistAction::Insert(_) => PersistEvent::Written,
        PersistAction::Commit => PersistEvent::Committed,
        _ => PersistEvent::Failed,
    }
}

/// The working copy of the transaction after a write.
pub open spec fn store_effect(w: Seq<CountryRecord>, batch: Seq<CountryRecord>, now: i64, a: PersistAction) -> Seq<
    CountryRecord,
> {
    match a {
        PersistAction::Update(i, id) => w.update(id as int, refreshed(w[id as int], batch[i as int], now)),
        PersistAction::Insert(i) => w.push(stamped(batch[i as int], now)),
        _ => w,
    }
}

/// A persist driven against a store that works but fails the action of
/// step `fail_at`: the working copy it commits, or `None` when it does not
/// commit within `fuel` steps.
pub open spec fn drive(
    total: usize,
    phase: PersistPhase,
    action: PersistAction,
    w: Seq<CountryRecord>,
    batch: Seq<CountryRecord>,
    now: i64,
    fail_at: int,
    step: int,
    fuel: nat,
) -> Option<Seq<CountryRecord>>
    decreases fuel,
{
    if fuel == 0 {
        None
    } else {
        match phase {
            PersistPhase::Finished(ok) => if ok { Some(w) } else { None },
            _ => {
                let failed = step == fail_at;
                let event = if failed { PersistEvent::Failed } else { store_answer(w, batch, action) };
                let w2 = if failed { w } else { store_effect(w, batch, now, action) };
                let next = persist_next(total, phase, event);
                drive(total, next.0, next.1, w2, batch, now, fail_at, step + 1, (fuel - 1) as nat)
            },
        }
    }
}

/// The number of actions that a persist of `n` records asks for before its
/// commit is acknowledged.
pub open spec fn persist_steps(n: int) -> int {
    2 * n + 2
}

proof fn lemma_applied_len(rows: Seq<CountryRecord>, batch: Seq<CountryRecord>, now: i64)
    ensures
        applied(rows, batch, now).len() <= rows.len() + batch.len(),
    decreases batch.len(),
{
    if batch.len() > 0 {
        lemma_applied_len(rows, batch.drop_last(), now);
    }
}

proof fn lemma_drive_failed(
    total: usize,
    w: Seq<CountryRecord>,
    batch: Seq<CountryRecord>,
    now: i64,
    fail_at: int,
    step: int,
    fuel: nat,
)
    ensures
        drive(total, PersistPhase::Finished(false), PersistAction::Rollback, w, batch, now, fail_at, step, fuel) is None,
{
}

proof fn lemma_drive_records(
    s: Seq<CountryRecord>,
    batch: Seq<CountryRecord>,
    now: i64,
    fail_at: int,
    k: int,
    fuel: nat,
)
    requires
        0 <= k < batch.len() <= usize::MAX,
        s.len() + batch.len() <= i64::MAX,
        fuel >= 2 * (batch.len() - k) + 2,
    ensures
        ({
            let r = drive(
                batch.len() as usize,
                PersistPhase::LookingUp(k as usize),
                PersistAction::LookUp(k as usize),
                applied(s, batch.take(k), now),
                batch,
                now,
                fail_at,
                1 + 2 * k,
                fuel,
            );
            &&& 1 + 2 * k <= fail_at < persist_steps(batch.len() as int) ==> r is None
            &&& !(0 <= fail_at < persist_steps(batch.len() as int)) ==> r == Some(applied(s, batch, now))
        }),
    decreases batch.len() - k,
{
    let n = batch.len() as int;
    let total = n as usize;
    let w = applied(s, batch.take(k), now);
    let c = batch[k];
    let step = 1 + 2 * k;
    lemma_applied_len(s, batch.take(k), now);
    assert(batch.take(k + 1).drop_last() =~= batch.take(k));
    assert(batch.take(k + 1).last() == c);
    let w1 = applied(s, batch.take(k + 1), now);
    assert(w1 == upserted(w, c, now));
    let f1 = (fuel - 1) as nat;
    let f2 = (fuel - 2) as nat;
    let f3 = (fuel - 3) as nat;
    let look = PersistAction::LookUp(k as usize);
    let r0 = drive(total, PersistPhase::LookingUp(k as usize), look, w, batch, now, fail_at, step, fuel);
    if fail_at == step {
        assert(r0 == drive(total, PersistPhase::Finished(false), PersistAction::Rollback, w, batch, now, fail_at, step + 1, f1));
        lemma_drive_failed(total, w, batch, now, fail_at, step + 1, f1);
    } else {
        let found = has_key(w, key_of(c));
        if found {
            let i = key_index(w, key_of(c));
            assert(0 <= i < w.len() && key_of(w[i]) == key_of(c));
            assert((i as i64) as int == i);
        }
        let a2 = if found {
            PersistAction::Update(k as usize, key_index(w, key_of(c)) as i64)
        } else {
            PersistAction::Insert(k as usize)
        };
        assert(store_effect(w, batch, now, look) == w);
        assert(r0 == drive(total, PersistPhase::Writing(k as usize), a2, w, batch, now, fail_at, step + 1, f1));
        if fail_at == step + 1 {
            assert(drive(total, PersistPhase::Writing(k as usize), a2, w, batch, now, fail_at, step + 1, f1)
                == drive(total, PersistPhase::Finished(false), PersistAction::Rollback, w, batch, now, fail_at, step + 2, f2));
            lemma_drive_failed(total, w, batch, now, fail_at, step + 2, f2);
        } else {
            assert(store_effect(w, batch, now, a2) =~= w1);
            let next = persist_next(total, PersistPhase::Writing(k as usize), PersistEvent::Written);
            assert(drive(total, PersistPhase::Writing(k as usize), a2, w, batch, now, fail_at, step + 1, f1)
                == drive(total, next.0, next.1, w1, batch, now, fail_at, step + 2, f2));
            if k + 1 < n {
                lemma_drive_records(s, batch, now, fail_at, k + 1, f2);
            } else {
                assert(batch.take(k + 1) =~= batch);
                assert(next == (PersistPhase::Committing, PersistAction::Commit));
                let r2 = drive(total, PersistPhase::Committing, PersistAction::Commit, w1, batch, now, fail_at, step + 2, f2);
                if fail_at == step + 2 {
                    assert(r2 == drive(total, PersistPhase::Finished(false), PersistAction::Rollback, w1, batch, now, fail_at, step + 3, f3));
                    lemma_drive_failed(total, w1, batch, now, fail_at, step + 3, f3);
                } else {
                    assert(store_effect(w1, batch, now, PersistAction::Commit) == w1);
                    assert(r2 == drive(total, PersistPhase::Finished(true), PersistAction::Stop, w1, batch, now, fail_at, step + 3, f3));
                    assert(drive(total, PersistPhase::Finished(true), PersistAction::Stop, w1, batch, now, fail_at, step + 3, f3) == Some(w1));
                }
            }
        }
    }
}

/// A persist is all or nothing. Driven against a store that works but fails
/// at any one of the steps before the commit is acknowledged, it commits
/// nothing, and the store keeps its rows; with no such failure it commits
/// the rows with every record of the batch upserted in order.
pub proof fn persist_all_or_nothing(s: Seq<CountryRecord>, batch: Seq<CountryRecord>, now: i64, fail_at: int)
    requires
        batch.len() <= usize::MAX,
        s.len() + batch.len() <= i64::MAX,
    ensures
        ({
            let n = batch.len() as int;
            let r = drive(
                n as usize,
                PersistPhase::Beginning,
                PersistAction::Begin,
                s,
                batch,
                now,
                fail_at,
                0,
                (persist_steps(n) + 1) as nat,
            );
            &&& 0 <= fail_at < persist_steps(n) ==> r is None
            &&& !(0 <= fail_at < persist_steps(n)) ==> r == Some(applied(s, batch, now))
        }),
{
    let n = batch.len() as int;
    let total = n as usize;
    let fuel = (persist_steps(n) + 1) as nat;
    let f1 = (fuel - 1) as nat;
    let f2 = (fuel - 2) as nat;
    let r = drive(total, PersistPhase::Beginning, PersistAction::Begin, s, batch, now, fail_at, 0, fuel);
    assert(store_effect(s, batch, now, PersistAction::Begin) == s);
    if fail_at == 0 {
        assert(r == drive(total, PersistPhase::Finished(false), PersistAction::Rollback, s, batch, now, fail_at, 1, f1));
        lemma_drive_failed(total, s, batch, now, fail_at, 1, f1);
    } else if n == 0 {
        assert(batch =~= Seq::<CountryRecord>::empty());
        assert(applied(s, batch, now) == s);
        assert(r == drive(total, PersistPhase::Committing, PersistAction::Commit, s, batch, now, fail_at, 1, f1));
        if fail_at == 1 {
            assert(drive(total, PersistPhase::Committing, PersistAction::Commit, s, batch, now, fail_at, 1, f1)
                == drive(total, PersistPhase::Finished(false), PersistAction::Rollback, s, batch, now, fail_at, 2, f2));
            lemma_drive_failed(total, s, batch, now, fail_at, 2, f2);
        } else {
            assert(store_effect(s, batch, now, PersistAction::Commit) == s);
            assert(drive(total, PersistPhase::Committing, PersistAction::Commit, s, batch, now, fail_at, 1, f1)
                == drive(total, PersistPhase::Finished(true), PersistAction::Stop, s, batch, now, fail_at, 2, f2));
        }
    } else {
        assert(batch.take(0) =~= Seq::<CountryRecord>::empty());
        assert(applied(s, batch.take(0), now) == s);
        assert(r == drive(total, PersistPhase::LookingUp(0), PersistAction::LookUp(0), s, batch, now, fail_at, 1, f1));
        lemma_drive_records(s, batch, now, fail_at, 0, f1);
    }
}

} // verus!
