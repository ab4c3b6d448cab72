use vstd::prelude::*;

verus! {

/// Where a transactional persist of a batch stands.
#[derive(Clone, Copy, PartialEq, Eq, Structural, Debug)]
pub enum PersistPhase {
    /// The transaction was asked for.
    Beginning,
    /// Record `i` is being looked up by case-insensitive name.
    LookingUp(usize),
    /// Record `i` is being written.
    Writing(usize),
    /// The commit was asked for.
    Committing,
    /// The run is over; `true` when the batch was committed.
    Finished(bool),
}

/// What the store reports back for the last action.
#[derive(Clone, Copy, PartialEq, Eq, Structural, Debug)]
pub enum PersistEvent {
    Began,
    /// A row matched the looked-up name; its identity.
    Found(i64),
    Missing,
    Written,
    Committed,
    Failed,
}

/// What the store is asked to do next.
#[derive(Clone, Copy, PartialEq, Eq, Structural, Debug)]
pub enum PersistAction {
    Begin,
    /// Look up the row of record `index` by case-insensitive name.
    LookUp(usize),
    /// Update row `id` from record `index`, keeping the row's name.
    Update(usize, i64),
    /// Insert record `index` as a new row.
    Insert(usize),
    Commit,
    /// Roll the transaction back; the persist has failed.
    Rollback,
    /// Nothing more: the run is over.
    Stop,
}

/// The failure of a persist; its cause is not reported.
#[derive(Clone, Copy, PartialEq, Eq, Structural, Debug)]
pub struct PersistError;

/// The phase and action that follow `phase` on `event` in a persist of
/// `total` records.
pub open spec fn persist_next(total: usize, phase: PersistPhase, event: PersistEvent) -> (
    PersistPhase,
    PersistAction,
) {
    match phase {
        PersistPhase::Finished(ok) => (PersistPhase::Finished(ok), PersistAction::Stop),
        _ => match (phase, event) {
            (PersistPhase::Beginning, PersistEvent::Began) => if total == 0 {
                (PersistPhase::Committing, PersistAction::Commit)
            } else {
                (PersistPhase::LookingUp(0), PersistAction::LookUp(0))
            },
            (PersistPhase::LookingUp(i), PersistEvent::Found(id)) => (
                PersistPhase::Writing(i),
                PersistAction::Update(i, id),
            ),
            (PersistPhase::LookingUp(i), PersistEvent::Missing) => (
                PersistPhase::Writing(i),
                PersistAction::Insert(i),
            ),
            (PersistPhase::Writing(i), PersistEvent::Written) => if i + 1 < total {
                (PersistPhase::LookingUp((i + 1) as usize), PersistAction::LookUp((i + 1) as usize))
            } else {
                (PersistPhase::Committing, PersistAction::Commit)
            },
            (PersistPhase::Committing, PersistEvent::Committed) => (
                PersistPhase::Finished(true),
                PersistAction::Stop,
            ),
            _ => (PersistPhase::Finished(false), PersistAction::Rollback),
        },
    }
}

/// The decisions of one transactional persist of a batch of `total` records:
/// each record is looked up and then updated or inserted, all inside one
/// transaction, and any failure rolls the whole batch back.
pub struct PersistRun {
    pub total: usize,
    pub phase: PersistPhase,
}

impl PersistRun {
    pub open spec fn wf(&self) -> bool {
        match self.phase {
            PersistPhase::LookingUp(i) => i < self.total,
            PersistPhase::Writing(i) => i < self.total,
            _ => true,
        }
    }

    /// Starts a persist of `total` records: the first action begins the
    /// transaction.
    pub fn start(total: usize) -> (r: (PersistRun, PersistAction))
        ensures
            r.0.wf(),
            r.0.total == total,
            r.0.phase == PersistPhase::Beginning,
            r.1 == PersistAction::Begin,
    {
        (PersistRun { total, phase: PersistPhase::Beginning }, PersistAction::Begin)
    }

    /// Takes the store's answer to the last action and gives the next one.
    pub fn step(&mut self, event: PersistEvent) -> (r: PersistAction)
        requires
            old(self).wf(),
        ensures
            final(self).wf(),
            final(self).total == old(self).total,
            (final(self).phase, r) == persist_next(old(self).total, old(self).phase, event),
    {
        let total = self.total;
        let (phase, action) = match self.phase {
            PersistPhase::Finished(ok) => (PersistPhase::Finished(ok), PersistAction::Stop),
            PersistPhase::Beginning => match event {
                PersistEvent::Began => if total == 0 {
                    (PersistPhase::Committing, PersistAction::Commit)
                } else {
                    (PersistPhase::LookingUp(0), PersistAction::LookUp(0))
                },
                _ => (PersistPhase::Finished(false), PersistAction::Rollback),
            },
            PersistPhase::LookingUp(i) => match event {
                PersistEvent::Found(id) => (PersistPhase::Writing(i), PersistAction::Update(i, id)),
                PersistEvent::Missing => (PersistPhase::Writing(i), PersistAction::Insert(i)),
                _ => (PersistPhase::Finished(false), PersistAction::Rollback),
            },
            PersistPhase::Writing(i) => match event {
                PersistEvent::Written => if i + 1 < total {
                    (PersistPhase::LookingUp(i + 1), PersistAction::LookUp(i + 1))
                } else {
                    (PersistPhase::Committing, PersistAction::Commit)
                },
                _ => (PersistPhase::Finished(false), PersistAction::Rollback),
            },
            PersistPhase::Committing => match event {
                PersistEvent::Committed => (PersistPhase::Finished(true), PersistAction::Stop),
                _ => (PersistPhase::Finished(false), PersistAction::Rollback),
            },
        };
        self.phase = phase;
        action
    }

    /// The outcome of a finished run.
    pub fn outcome(&self) -> (r: Option<Result<(), PersistError>>)
        ensures
            r == match self.phase {
                PersistPhase::Finished(true) => Some(Ok(())),
                PersistPhase::Finished(false) => Some(Err(PersistError)),
                _ => None::<Result<(), PersistError>>,
            },
    {
        match self.phase {
            PersistPhase::Finished(true) => Some(Ok(())),
            PersistPhase::Finished(false) => Some(Err(PersistError)),
            _ => None,
        }
    }
}

} // verus!
