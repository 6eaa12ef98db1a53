//! How batches of events come in: in order, each once, or not at all.
use vstd::prelude::*;

use crate::event::{
    last_of_epoch, verdict, EventBatch, EventSequenceTracker, SequenceVerdict,
};
use crate::text::{cat2, cat4, cat8, decimal, decimal_text};

verus! {

/// Why no more events can be taken in.
#[derive(Debug, Clone, PartialEq)]
pub enum IngressFatal {
    SequenceRegression { handle: u32, epoch: u64, got: u64, max: u64 },
    IdCollision { endpoint_id: String, event_id: String },
    StoreUnavailable(String),
    InvalidBatch(String),
    StreamClosed,
}

/// What an [`IngressFatal`] is.
pub enum FatalV {
    SequenceRegression { handle: u32, epoch: u64, got: u64, max: u64 },
    IdCollision { endpoint_id: Seq<char>, event_id: Seq<char> },
    StoreUnavailable(Seq<char>),
    InvalidBatch(Seq<char>),
    StreamClosed,
}

impl View for IngressFatal {
    type V = FatalV;

    open spec fn view(&self) -> FatalV {
        match self {
            IngressFatal::SequenceRegression { handle, epoch, got, max } =>
                FatalV::SequenceRegression { handle: *handle, epoch: *epoch, got: *got, max: *max },
            IngressFatal::IdCollision { endpoint_id, event_id } => FatalV::IdCollision {
                endpoint_id: endpoint_id@,
                event_id: event_id@,
            },
            IngressFatal::StoreUnavailable(m) => FatalV::StoreUnavailable(m@),
            IngressFatal::InvalidBatch(m) => FatalV::InvalidBatch(m@),
            IngressFatal::StreamClosed => FatalV::StreamClosed,
        }
    }
}

/// The code of an [`IngressFatal`].
pub open spec fn fatal_code(f: FatalV) -> Seq<char> {
    match f {
        FatalV::SequenceRegression { .. } => "EVENT_SEQUENCE_REGRESSION"@,
        FatalV::IdCollision { .. } => "EVENT_ID_COLLISION"@,
        FatalV::StoreUnavailable(_) => "EVENT_STORE_UNAVAILABLE"@,
        FatalV::InvalidBatch(_) => "EVENT_RECORD_INVALID"@,
        FatalV::StreamClosed => "EVENT_STREAM_CLOSED"@,
    }
}

/// How an [`IngressFatal`] reads.
pub open spec fn fatal_text(f: FatalV) -> Seq<char> {
    match f {
        FatalV::SequenceRegression { handle, epoch, got, max } =>
            "EVENT_SEQUENCE_REGRESSION: handle "@ + decimal(handle as nat) + " epoch "@ + decimal(
                epoch as nat,
            ) + " got "@ + decimal(got as nat) + " after "@ + decimal(max as nat),
        FatalV::IdCollision { endpoint_id, event_id } => "EVENT_ID_COLLISION: endpoint "@
            + endpoint_id + " event "@ + event_id,
        FatalV::StoreUnavailable(m) => "EVENT_STORE_UNAVAILABLE: "@ + m,
        FatalV::InvalidBatch(m) => "EVENT_RECORD_INVALID: "@ + m,
        FatalV::StreamClosed => "EVENT_STREAM_CLOSED"@,
    }
}

impl IngressFatal {
    pub fn code(&self) -> (r: &'static str)
        ensures
            r@ == fatal_code(self@),
    {
        match self {
            IngressFatal::SequenceRegression { .. } => "EVENT_SEQUENCE_REGRESSION",
            IngressFatal::IdCollision { .. } => "EVENT_ID_COLLISION",
            IngressFatal::StoreUnavailable(_) => "EVENT_STORE_UNAVAILABLE",
            IngressFatal::InvalidBatch(_) => "EVENT_RECORD_INVALID",
            IngressFatal::StreamClosed => "EVENT_STREAM_CLOSED",
        }
    }

    pub fn message(&self) -> (r: String)
        ensures
            r@ == fatal_text(self@),
    {
        match self {
            IngressFatal::SequenceRegression { handle, epoch, got, max } => cat8(
                "EVENT_SEQUENCE_REGRESSION: handle ",
                decimal_text(*handle as u64).as_str(),
                " epoch ",
                decimal_text(*epoch).as_str(),
                " got ",
                decimal_text(*got).as_str(),
                " after ",
                decimal_text(*max).as_str(),
            ),
            IngressFatal::IdCollision { endpoint_id, event_id } => cat4(
                "EVENT_ID_COLLISION: endpoint ",
                endpoint_id.as_str(),
                " event ",
                event_id.as_str(),
            ),
            IngressFatal::StoreUnavailable(m) => cat2("EVENT_STORE_UNAVAILABLE: ", m.as_str()),
            IngressFatal::InvalidBatch(m) => cat2("EVENT_RECORD_INVALID: ", m.as_str()),
            IngressFatal::StreamClosed => "EVENT_STREAM_CLOSED".to_owned(),
        }
    }
}

/// What came in so far.
#[derive(Debug, Clone, Copy, PartialEq, Eq, Structural)]
pub struct IngressStats {
    pub batches: u64,
    pub persisted_events: u64,
    pub batch_duplicates: u64,
    pub event_duplicates: u64,
    pub gaps: u64,
}

impl Default for IngressStats {
    fn default() -> (r: IngressStats)
        ensures
            r == (IngressStats {
                batches: 0,
                persisted_events: 0,
                batch_duplicates: 0,
                event_duplicates: 0,
                gaps: 0,
            }),
    {
        IngressStats {
            batches: 0,
            persisted_events: 0,
            batch_duplicates: 0,
            event_duplicates: 0,
            gaps: 0,
        }
    }
}

/// Takes in the batches of an endpoint, one after the other.
pub struct BatchProcessor {
    pub tracker: EventSequenceTracker,
    pub max_seen: Option<(u64, u64)>,
    pub stats: IngressStats,
}

/// What is counted of a batch by what is thought of it.
pub open spec fn counted(s: IngressStats, v: SequenceVerdict) -> IngressStats {
    let more = IngressStats { batches: (s.batches + 1) as u64, ..s };
    match v {
        SequenceVerdict::Gap { expected, got } => IngressStats {
            gaps: (s.gaps + 1) as u64,
            ..more
        },
        SequenceVerdict::Duplicate => IngressStats {
            batch_duplicates: (s.batch_duplicates + 1) as u64,
            ..more
        },
        _ => more,
    }
}

/// What became of a batch that was to be stored.
#[derive(Debug, Clone, PartialEq)]
pub enum CommitOutcome {
    Committed { inserted: u64, duplicates: u64 },
    IdCollision { endpoint_id: String, event_id: String },
    InvalidRecord(String),
    Unavailable(String),
    Fatal(String),
    Encode(String),
}

impl BatchProcessor {
    /// A processor that has seen nothing.
    pub fn new() -> (r: BatchProcessor)
        ensures
            r.tracker.last is None,
            r.max_seen is None,
            r.stats == (IngressStats {
                batches: 0,
                persisted_events: 0,
                batch_duplicates: 0,
                event_duplicates: 0,
                gaps: 0,
            }),
    {
        BatchProcessor {
            tracker: EventSequenceTracker::new(),
            max_seen: None,
            stats: IngressStats::default(),
        }
    }

    /// Whether a batch is to be stored. One that was seen is not, and is no failure; one that goes
    /// back in order is a failure.
    pub fn process(&mut self, batch: &EventBatch) -> (r: Result<bool, IngressFatal>)
        requires
            old(self).stats.batches < u64::MAX,
            old(self).stats.gaps < u64::MAX,
            old(self).stats.batch_duplicates < u64::MAX,
            old(self).max_seen == old(self).tracker.last,
        ensures
            ({
                let last = old(self).tracker.last;
                let v = verdict(last, batch.stream_epoch, batch.sequence);
                &&& final(self).stats == counted(old(self).stats, v)
                &&& final(self).max_seen == final(self).tracker.last
                &&& match v {
                    SequenceVerdict::Accept => r == Ok::<bool, IngressFatal>(true),
                    SequenceVerdict::Gap { expected, got } => r == Ok::<bool, IngressFatal>(true),
                    SequenceVerdict::Duplicate => r == Ok::<bool, IngressFatal>(false),
                    SequenceVerdict::Regression => r is Err && r->Err_0@
                        == (FatalV::SequenceRegression {
                        handle: batch.connection_handle,
                        epoch: batch.stream_epoch,
                        got: batch.sequence,
                        max: last_of_epoch(last, batch.stream_epoch),
                    }),
                }
                &&& final(self).tracker.last == (if v is Accept || v is Gap {
                    Some((batch.stream_epoch, batch.sequence))
                } else {
                    last
                })
            }),
    {
        self.stats.batches = self.stats.batches + 1;
        let (epoch, seq): (u64, u64) = (batch.stream_epoch, batch.sequence);
        match self.tracker.check(epoch, seq) {
            SequenceVerdict::Accept => {
                self.max_seen = Some((epoch, seq));
                Ok(true)
            },
            SequenceVerdict::Gap { expected: _, got } => {
                self.stats.gaps = self.stats.gaps + 1;
                self.max_seen = Some((epoch, got));
                Ok(true)
            },
            SequenceVerdict::Duplicate => {
                self.stats.batch_duplicates = self.stats.batch_duplicates + 1;
                Ok(false)
            },
            SequenceVerdict::Regression => {
                let max: u64 = match self.max_seen {
                    Some(m) => if m.0 == epoch {
                        m.1
                    } else {
                        0
                    },
                    None => 0,
                };
                Err(
                    IngressFatal::SequenceRegression {
                        handle: batch.connection_handle,
                        epoch,
                        got: seq,
                        max,
                    },
                )
            },
        }
    }

    /// Takes what became of a batch that was to be stored.
    pub fn committed(&mut self, handle: u32, outcome: CommitOutcome) -> (r: Result<(), IngressFatal>)
        requires
            outcome matches CommitOutcome::Committed { inserted, duplicates } ==> old(self).stats.persisted_events + inserted <= u64::MAX && old(self).stats.event_duplicates
                + duplicates <= u64::MAX,
        ensures
            final(self).tracker == old(self).tracker,
            final(self).max_seen == old(self).max_seen,
            match outcome {
                CommitOutcome::Committed { inserted, duplicates } => r is Ok && final(self).stats
                    == (IngressStats {
                    persisted_events: (old(self).stats.persisted_events + inserted) as u64,
                    event_duplicates: (old(self).stats.event_duplicates + duplicates) as u64,
                    ..old(self).stats
                }),
                CommitOutcome::IdCollision { endpoint_id, event_id } => r is Err && r->Err_0@
                    == (FatalV::IdCollision { endpoint_id: endpoint_id@, event_id: event_id@ }),
                CommitOutcome::InvalidRecord(m) => r is Err && r->Err_0@ == FatalV::InvalidBatch(
                    "handle "@ + decimal(handle as nat) + ": "@ + m@,
                ),
                CommitOutcome::Unavailable(m) => r is Err && r->Err_0@ == FatalV::StoreUnavailable(
                    m@,
                ),
                CommitOutcome::Fatal(m) => r is Err && r->Err_0@ == FatalV::StoreUnavailable(
                    "sqlite: "@ + m@,
                ),
                CommitOutcome::Encode(m) => r is Err && r->Err_0@ == FatalV::InvalidBatch(m@),
            },
            r is Err ==> final(self).stats == old(self).stats,
    {
        match outcome {
            CommitOutcome::Committed { inserted, duplicates } => {
                self.stats.persisted_events = self.stats.persisted_events + inserted;
                self.stats.event_duplicates = self.stats.event_duplicates + duplicates;
                Ok(())
            },
            CommitOutcome::IdCollision { endpoint_id, event_id } => Err(
                IngressFatal::IdCollision { endpoint_id, event_id },
            ),
            CommitOutcome::InvalidRecord(m) => Err(
                IngressFatal::InvalidBatch(
                    cat4("handle ", decimal_text(handle as u64).as_str(), ": ", m.as_str()),
                ),
            ),
            CommitOutcome::Unavailable(m) => Err(IngressFatal::StoreUnavailable(m)),
            CommitOutcome::Fatal(m) => Err(
                IngressFatal::StoreUnavailable(cat2("sqlite: ", m.as_str())),
            ),
            CommitOutcome::Encode(m) => Err(IngressFatal::InvalidBatch(m)),
        }
    }
}

/// A batch that was taken in is not stored again when it comes again at once.
pub proof fn batches_are_stored_once(last: Option<(u64, u64)>, epoch: u64, sequence: u64)
    requires
        verdict(last, epoch, sequence) is Accept || verdict(last, epoch, sequence) is Gap,
    ensures
        verdict(Some((epoch, sequence)), epoch, sequence) is Duplicate,
{
}

/// Within an epoch a batch that comes after a later one is never stored.
pub proof fn stored_batches_are_in_order(last: (u64, u64), sequence: u64)
    requires
        sequence < last.1,
    ensures
        verdict(Some(last), last.0, sequence) is Regression,
{
}

/// What stops the reading of events is told by its code.
pub proof fn what_stops_events_is_told_by_its_code(f: FatalV)
    ensures
        f is SequenceRegression ==> fatal_code(f) == "EVENT_SEQUENCE_REGRESSION"@,
        f is IdCollision ==> fatal_code(f) == "EVENT_ID_COLLISION"@,
        f is StoreUnavailable ==> fatal_code(f) == "EVENT_STORE_UNAVAILABLE"@,
        f is InvalidBatch ==> fatal_code(f) == "EVENT_RECORD_INVALID"@,
        f is StreamClosed ==> fatal_code(f) == "EVENT_STREAM_CLOSED"@,
{
}

/// Each batch is counted; a gap before it and a batch that was there already are counted too.
pub proof fn batches_are_counted(s: IngressStats, v: SequenceVerdict)
    requires
        s.batches < u64::MAX,
        s.gaps < u64::MAX,
        s.batch_duplicates < u64::MAX,
    ensures
        counted(s, v).batches == s.batches + 1,
        v is Gap ==> counted(s, v).gaps == s.gaps + 1,
        !(v is Gap) ==> counted(s, v).gaps == s.gaps,
        v is Duplicate ==> counted(s, v).batch_duplicates == s.batch_duplicates + 1,
        !(v is Duplicate) ==> counted(s, v).batch_duplicates == s.batch_duplicates,
{
}

} // verus!
