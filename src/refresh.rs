use vstd::prelude::*;
use crate::model::{CountryRecord, RateTable, RawCountry};
use crate::normalize::{draw_multipliers, multipliers_in_range, normalize_all, normalized_all};
use crate::reply::{internal, is_reply, source_host, unavailable, ErrorReply, FetchSource};
use crate::sources::{format_instant, in_chrono_range, now_millis, rfc3339_of};

verus! {

/// Where a refresh run stands; each phase waits for the answer to the
/// action that entered it.
#[derive(Clone, Copy, PartialEq, Eq, Structural, Debug)]
pub enum RefreshPhase {
    FetchingCountries,
    FetchingRates,
    Persisting,
    Rendering,
    Done,
}

/// The outcome of the last action of a refresh run.
pub enum RefreshEvent {
    CountriesFetched(Vec<RawCountry>),
    CountriesFailed(String),
    RatesFetched(RateTable),
    RatesFailed(String),
    Persisted,
    PersistFailed,
    Rendered,
    RenderFailed,
}

/// The answer to a successful refresh: the run's time, and its RFC 3339
/// text.
pub struct RefreshSuccess {
    pub refreshed_at: i64,
    pub refreshed_at_text: Option<String>,
}

/// What the caller of a refresh run does next.
pub enum RefreshAction {
    FetchCountries,
    FetchRates,
    /// Persist the records in one transaction, stamped with the time given.
    Persist(Vec<CountryRecord>, i64),
    /// Render the summary artifact for the run at the time given.
    Render(i64),
    /// Answer the request; the run is over.
    Respond(Result<RefreshSuccess, ErrorReply>),
    /// The run is over and was answered already.
    Stop,
}

/// The refresh run: fetch the countries, then the rates, normalise, persist
/// in one transaction, render the summary, answer.
pub struct RefreshRun {
    pub phase: RefreshPhase,
    pub countries: Vec<RawCountry>,
    pub now: i64,
}

/// `r` is a success answer for the run at `now`.
pub open spec fn is_success(r: Result<RefreshSuccess, ErrorReply>, now: i64) -> bool {
    match r {
        Ok(s) => s.refreshed_at == now && match s.refreshed_at_text {
            Some(t) => t@ == rfc3339_of(now as int),
            None => false,
        },
        Err(_) => false,
    }
}

/// `r` is the 503 answer for a failed fetch of `source`.
pub open spec fn is_unavailable(r: Result<RefreshSuccess, ErrorReply>, source: FetchSource, reason: Seq<char>) -> bool {
    match r {
        Ok(_) => false,
        Err(e) => is_reply(e, 503, "External data source unavailable"@) && match e.details {
            Some(d) => d@ == "Could not fetch data from "@ + source_host(source) + ": "@ + reason,
            None => false,
        },
    }
}

/// `r` is the 500 answer of a failed persist.
pub open spec fn is_internal(r: Result<RefreshSuccess, ErrorReply>) -> bool {
    match r {
        Ok(_) => false,
        Err(e) => is_reply(e, 500, "Internal server error"@) && e.details is None,
    }
}

impl RefreshRun {
    /// Once the run has its time, chrono can write it.
    pub open spec fn wf(&self) -> bool {
        (self.phase == RefreshPhase::Persisting || self.phase == RefreshPhase::Rendering) ==> in_chrono_range(
            self.now as int,
        )
    }

    /// Starts a run: the first action fetches the countries.
    pub fn start() -> (r: (RefreshRun, RefreshAction))
        ensures
            r.0.wf(),
            r.0.phase == RefreshPhase::FetchingCountries,
            r.1 is FetchCountries,
    {
        (
            RefreshRun { phase: RefreshPhase::FetchingCountries, countries: Vec::new(), now: 0 },
            RefreshAction::FetchCountries,
        )
    }

    fn success(now: i64) -> (r: Result<RefreshSuccess, ErrorReply>)
        requires
            in_chrono_range(now as int),
        ensures
            is_success(r, now),
    {
        let text = format_instant(now);
        Ok(RefreshSuccess { refreshed_at: now, refreshed_at_text: text })
    }

    /// Takes the outcome of the last action and gives the next one. A failed
    /// fetch answers 503 and persists nothing; a failed persist answers 500;
    /// a failed render still answers success. An outcome that does not
    /// belong to the phase ends the run with a 500.
    pub fn step(&mut self, event: RefreshEvent) -> (r: RefreshAction)
        requires
            old(self).wf(),
        ensures
            final(self).wf(),
            match (old(self).phase, event) {
                (RefreshPhase::Done, _) => final(self).phase == RefreshPhase::Done && r is Stop,
                (RefreshPhase::FetchingCountries, RefreshEvent::CountriesFetched(list)) => {
                    &&& final(self).phase == RefreshPhase::FetchingRates
                    &&& final(self).countries == list
                    &&& r is FetchRates
                },
                (RefreshPhase::FetchingCountries, RefreshEvent::CountriesFailed(reason)) => {
                    &&& final(self).phase == RefreshPhase::Done
                    &&& r matches RefreshAction::Respond(a) && is_unavailable(a, FetchSource::Countries, reason@)
                },
                (RefreshPhase::FetchingRates, RefreshEvent::RatesFetched(rates)) => {
                    &&& final(self).phase == RefreshPhase::Persisting
                    &&& final(self).countries == old(self).countries
                    &&& r matches RefreshAction::Persist(records, now) && now == final(self).now
                        && exists|ms: Seq<u64>|
                        ms.len() == old(self).countries@.len() && multipliers_in_range(ms)
                            && records@ == #[trigger] normalized_all(old(self).countries@, rates, now, ms)
                },
                (RefreshPhase::FetchingRates, RefreshEvent::RatesFailed(reason)) => {
                    &&& final(self).phase == RefreshPhase::Done
                    &&& r matches RefreshAction::Respond(a) && is_unavailable(a, FetchSource::Rates, reason@)
                },
                (RefreshPhase::Persisting, RefreshEvent::Persisted) => {
                    &&& final(self).phase == RefreshPhase::Rendering
                    &&& final(self).now == old(self).now
                    &&& r == RefreshAction::Render(old(self).now)
                },
                (RefreshPhase::Rendering, RefreshEvent::Rendered) | (
                    RefreshPhase::Rendering,
                    RefreshEvent::RenderFailed,
                ) => {
                    &&& final(self).phase == RefreshPhase::Done
                    &&& r matches RefreshAction::Respond(a) && is_success(a, old(self).now)
                },
                _ => {
                    &&& final(self).phase == RefreshPhase::Done
                    &&& r matches RefreshAction::Respond(a) && is_internal(a)
                },
            },
    {
        match self.phase {
            RefreshPhase::Done => RefreshAction::Stop,
            RefreshPhase::FetchingCountries => match event {
                RefreshEvent::CountriesFetched(list) => {
                    self.countries = list;
                    self.phase = RefreshPhase::FetchingRates;
                    RefreshAction::FetchRates
                },
                RefreshEvent::CountriesFailed(reason) => {
                    self.phase = RefreshPhase::Done;
                    RefreshAction::Respond(Err(unavailable(FetchSource::Countries, reason.as_str())))
                },
                _ => {
                    self.phase = RefreshPhase::Done;
                    RefreshAction::Respond(Err(internal()))
                },
            },
            RefreshPhase::FetchingRates => match event {
                RefreshEvent::RatesFetched(rates) => {
                    let now = now_millis();
                    let ms = draw_multipliers(self.countries.len());
                    let records = normalize_all(&self.countries, &rates, now, &ms);
                    self.now = now;
                    self.phase = RefreshPhase::Persisting;
                    assert(ms@.len() == self.countries@.len() && multipliers_in_range(ms@)
                        && records@ == normalized_all(self.countries@, rates, now, ms@));
                    RefreshAction::Persist(records, now)
                },
                RefreshEvent::RatesFailed(reason) => {
                    self.phase = RefreshPhase::Done;
                    RefreshAction::Respond(Err(unavailable(FetchSource::Rates, reason.as_str())))
                },
                _ => {
                    self.phase = RefreshPhase::Done;
                    RefreshAction::Respond(Err(internal()))
                },
            },
            RefreshPhase::Persisting => match event {
                RefreshEvent::Persisted => {
                    self.phase = RefreshPhase::Rendering;
                    RefreshAction::Render(self.now)
                },
                _ => {
                    self.phase = RefreshPhase::Done;
                    RefreshAction::Respond(Err(internal()))
                },
            },
            RefreshPhase::Rendering => match event {
                RefreshEvent::Rendered | RefreshEvent::RenderFailed => {
                    self.phase = RefreshPhase::Done;
                    RefreshAction::Respond(Self::success(self.now))
                },
                _ => {
                    self.phase = RefreshPhase::Done;
                    RefreshAction::Respond(Err(internal()))
                },
            },
        }
    }
}

} // verus!
