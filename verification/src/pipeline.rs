//! The bounded-concurrency geocoding pipeline.
//!
//! The pipeline maps every input record to exactly one outcome while an
//! admission limiter caps how many service calls run at once. The service
//! itself is outside the library: a driver repeatedly asks `step_start` for
//! work, performs the admitted call, and hands the reply back through
//! `finish`. Every decision — whether a record can form a query, what a
//! reply means for a record, when the run is done, and how the outcome set
//! reduces under a failure policy — is made and verified here.

use vstd::prelude::*;
use vstd::pervasive::VecAdditionalExecFns;
use crate::address::{
    input_reset, lemma_parse_keeps_input_fields, spec_parse_geocoding_result, spec_query, Address,
    AddressV,
};
use crate::geocoding::{Geocoding, GeocodingError, GeocodingErrorV, GeocodingV};

verus! {

// ---------------------------------------------------------------------------
// The admission limiter.
// ---------------------------------------------------------------------------

/// A counting admission limiter for service calls: at most `ceiling` slots are
/// out at any moment. Callers only acquire and release; the counter stays
/// hidden.
pub struct ConcurrencyLimiter {
    ceiling: usize,
    in_flight: usize,
}

impl ConcurrencyLimiter {
    /// The fixed number of slots.
    pub closed spec fn spec_ceiling(self) -> nat {
        self.ceiling as nat
    }

    /// How many slots are out.
    pub closed spec fn spec_in_flight(self) -> nat {
        self.in_flight as nat
    }

    /// The limiter never hands out more slots than its ceiling, and has at
    /// least one slot to hand out.
    pub open spec fn wf(self) -> bool {
        self.spec_in_flight() <= self.spec_ceiling() && self.spec_ceiling() >= 1
    }

    /// A limiter with `ceiling` slots, all free.
    pub fn new(ceiling: usize) -> (r: Self)
        requires
            ceiling >= 1,
        ensures
            r.wf(),
            r.spec_ceiling() == ceiling,
            r.spec_in_flight() == 0,
    {
        ConcurrencyLimiter { ceiling, in_flight: 0 }
    }

    /// Takes a slot when one is free; reports whether it did.
    pub fn try_acquire(&mut self) -> (granted: bool)
        requires
            old(self).wf(),
        ensures
            final(self).wf(),
            final(self).spec_ceiling() == old(self).spec_ceiling(),
            granted == (old(self).spec_in_flight() < old(self).spec_ceiling()),
            granted ==> final(self).spec_in_flight() == old(self).spec_in_flight() + 1,
            !granted ==> final(self).spec_in_flight() == old(self).spec_in_flight(),
    {
        if self.in_flight < self.ceiling {
            self.in_flight = self.in_flight + 1;
            true
        } else {
            false
        }
    }

    /// Returns a slot. Every unit of work gives its slot back on every exit
    /// path, so a slot is never held across two units of work.
    pub fn release(&mut self)
        requires
            old(self).wf(),
            old(self).spec_in_flight() >= 1,
        ensures
            final(self).wf(),
            final(self).spec_ceiling() == old(self).spec_ceiling(),
            final(self).spec_in_flight() == old(self).spec_in_flight() - 1,
    {
        self.in_flight = self.in_flight - 1;
    }

    /// How many slots are out right now.
    pub fn in_flight_count(&self) -> (r: usize)
        ensures
            r == self.spec_in_flight(),
    {
        self.in_flight
    }

    /// The fixed number of slots.
    pub fn ceiling(&self) -> (r: usize)
        ensures
            r == self.spec_ceiling(),
    {
        self.ceiling
    }
}

// ---------------------------------------------------------------------------
// Replies and outcomes.
// ---------------------------------------------------------------------------

/// What one service call handed back: the candidate list of a successful
/// response — possibly empty — or the failure's message.
pub enum ServiceReply {
    /// The candidates of a successful response, best-ranked first.
    Results(Vec<Geocoding>),
    /// A transport, authentication, quota or decoding failure.
    Failure(String),
}

/// Mathematical value of a [`ServiceReply`].
pub enum ServiceReplyV {
    Results(Seq<GeocodingV>),
    Failure(Seq<char>),
}

impl View for ServiceReply {
    type V = ServiceReplyV;

    open spec fn view(&self) -> ServiceReplyV {
        match self {
            ServiceReply::Results(rs) => ServiceReplyV::Results(
                rs@.map_values(|g: Geocoding| g@),
            ),
            ServiceReply::Failure(m) => ServiceReplyV::Failure(m@),
        }
    }
}

impl ServiceReply {
    /// Every candidate's coordinate stays within the decimal bounds.
    pub open spec fn wf(self) -> bool {
        match self {
            ServiceReply::Results(rs) => forall|i: int|
                0 <= i < rs@.len() ==> (#[trigger] rs@[i]).wf(),
            ServiceReply::Failure(_) => true,
        }
    }
}

/// The pipeline's unit of work result: the record either resolved with its
/// geocoded fields filled in, or failed with its original fields and the
/// cause attached. A record never partially populates its geocoded fields.
#[derive(Debug)]
pub enum Outcome {
    /// The lookup succeeded; the record carries the geocoded fields and the
    /// drift distance.
    Resolved(Address),
    /// The lookup failed; the record is unchanged and the cause is kept.
    Failed(Address, GeocodingError),
}

/// Mathematical value of an [`Outcome`].
pub enum OutcomeV {
    Resolved(AddressV),
    Failed(AddressV, GeocodingErrorV),
}

impl View for Outcome {
    type V = OutcomeV;

    open spec fn view(&self) -> OutcomeV {
        match self {
            Outcome::Resolved(a) => OutcomeV::Resolved(a@),
            Outcome::Failed(a, e) => OutcomeV::Failed(a@, e@),
        }
    }
}

/// The input record an outcome is about: its record stripped of every
/// geocoded field.
pub open spec fn outcome_subject(o: OutcomeV) -> AddressV {
    match o {
        OutcomeV::Resolved(b) => input_reset(b),
        OutcomeV::Failed(b, _) => input_reset(b),
    }
}

/// The record an outcome carries keeps its coordinates within the decimal
/// bounds.
pub open spec fn outcome_wf(o: OutcomeV) -> bool {
    match o {
        OutcomeV::Resolved(b) => b.wf(),
        OutcomeV::Failed(b, _) => b.wf(),
    }
}

/// The outcome a reply means for a record: the first candidate parsed in,
/// a `NoApiResult` failure for an empty candidate list, and the carried
/// message for a service failure.
pub open spec fn spec_outcome(a: AddressV, rep: ServiceReplyV) -> OutcomeV {
    match rep {
        ServiceReplyV::Results(rs) => {
            if rs.len() == 0 {
                OutcomeV::Failed(a, GeocodingErrorV::NoApiResult)
            } else {
                OutcomeV::Resolved(spec_parse_geocoding_result(rs[0], a))
            }
        },
        ServiceReplyV::Failure(m) => OutcomeV::Failed(a, GeocodingErrorV::GoogleMapsError(m)),
    }
}

/// Turns the reply of one service call into the record's outcome.
pub fn outcome_of_reply(address_obj: Address, reply: ServiceReply) -> (r: Outcome)
    requires
        address_obj.wf(),
        reply.wf(),
    ensures
        r@ == spec_outcome(address_obj@, reply@),
        outcome_wf(r@),
{
    match reply {
        ServiceReply::Results(results) => {
            if results.len() == 0 {
                Outcome::Failed(address_obj, GeocodingError::NoApiResult)
            } else {
                Outcome::Resolved(Address::parse_geocoding_result(&results[0], address_obj))
            }
        },
        ServiceReply::Failure(m) => Outcome::Failed(
            address_obj,
            GeocodingError::GoogleMapsError(m),
        ),
    }
}

// ---------------------------------------------------------------------------
// Counting record states.
// ---------------------------------------------------------------------------

/// Where one record stands while the pipeline runs.
#[derive(Clone, Copy, Debug, PartialEq, Eq, Structural)]
pub enum RecordStatus {
    /// Not started.
    Pending,
    /// Its service call is out.
    InFlight,
    /// Its outcome is collected.
    Done,
}

/// How many entries of `s` are `t`.
pub open spec fn count_status(s: Seq<RecordStatus>, t: RecordStatus) -> nat
    decreases s.len(),
{
    if s.len() == 0 {
        0
    } else {
        count_status(s.drop_last(), t) + if s.last() == t {
            1nat
        } else {
            0nat
        }
    }
}

/// Appending an entry raises exactly its own count.
proof fn lemma_count_push(s: Seq<RecordStatus>, v: RecordStatus, t: RecordStatus)
    ensures
        count_status(s.push(v), t) == count_status(s, t) + if v == t {
            1nat
        } else {
            0nat
        },
{
    assert(s.push(v).drop_last() =~= s);
    assert(s.push(v).last() == v);
}

/// Overwriting an entry moves a count of one from the old entry to the new.
proof fn lemma_count_update(s: Seq<RecordStatus>, i: int, v: RecordStatus, t: RecordStatus)
    requires
        0 <= i < s.len(),
    ensures
        count_status(s.update(i, v), t) as int == count_status(s, t) as int - (if s[i] == t {
            1int
        } else {
            0int
        }) + (if v == t {
            1int
        } else {
            0int
        }),
    decreases s.len(),
{
    let su = s.update(i, v);
    if i == s.len() - 1 {
        assert(su.drop_last() =~= s.drop_last());
        assert(su.last() == v);
        assert(s.last() == s[i]);
    } else {
        assert(su.drop_last() =~= s.drop_last().update(i, v));
        assert(su.last() == s.last());
        lemma_count_update(s.drop_last(), i, v, t);
        assert(s.drop_last()[i] == s[i]);
    }
}

/// A zero count means the entry occurs nowhere.
proof fn lemma_count_zero(s: Seq<RecordStatus>, t: RecordStatus)
    requires
        count_status(s, t) == 0,
    ensures
        forall|i: int| 0 <= i < s.len() ==> s[i] != t,
    decreases s.len(),
{
    if s.len() > 0 {
        lemma_count_zero(s.drop_last(), t);
        assert forall|i: int| 0 <= i < s.len() implies s[i] != t by {
            if i < s.len() - 1 {
                assert(s.drop_last()[i] == s[i]);
            } else {
                assert(s[i] == s.last());
            }
        }
    }
}

/// An entry that occurs nowhere has a zero count.
proof fn lemma_count_none(s: Seq<RecordStatus>, t: RecordStatus)
    requires
        forall|i: int| 0 <= i < s.len() ==> s[i] != t,
    ensures
        count_status(s, t) == 0,
    decreases s.len(),
{
    if s.len() > 0 {
        assert forall|i: int| 0 <= i < s.drop_last().len() implies s.drop_last()[i] != t by {
            assert(s.drop_last()[i] == s[i]);
        }
        lemma_count_none(s.drop_last(), t);
        assert(s.last() == s[s.len() - 1]);
    }
}

/// An entry that occurs somewhere has a positive count.
proof fn lemma_count_at_least_one(s: Seq<RecordStatus>, i: int, t: RecordStatus)
    requires
        0 <= i < s.len(),
        s[i] == t,
    ensures
        count_status(s, t) >= 1,
    decreases s.len(),
{
    if i == s.len() - 1 {
        assert(s.last() == s[i]);
    } else {
        assert(s.drop_last()[i] == s[i]);
        lemma_count_at_least_one(s.drop_last(), i, t);
    }
}

/// An entry that occurs everywhere has the full count.
proof fn lemma_count_all(s: Seq<RecordStatus>, t: RecordStatus)
    requires
        forall|i: int| 0 <= i < s.len() ==> s[i] == t,
    ensures
        count_status(s, t) == s.len(),
    decreases s.len(),
{
    if s.len() > 0 {
        assert forall|i: int| 0 <= i < s.drop_last().len() implies s.drop_last()[i] == t by {
            assert(s.drop_last()[i] == s[i]);
        }
        lemma_count_all(s.drop_last(), t);
        assert(s.last() == s[s.len() - 1]);
    }
}

// ---------------------------------------------------------------------------
// The pipeline.
// ---------------------------------------------------------------------------

/// What `step_start` decided.
pub enum StartStep {
    /// A lookup was admitted: perform the service call with `query` and
    /// hand the reply back through `finish` under `token`.
    Call { token: usize, query: String },
    /// The next record cannot form a query: its `FileAddressNotFound`
    /// failure was recorded at once, without any service call.
    Skipped,
    /// The ceiling is reached: nothing can start until a call finishes.
    Saturated,
    /// Every record has been started already.
    Exhausted,
}

/// The run of one batch: the input records, where each stands, the limiter,
/// and the outcomes collected so far in completion order.
pub struct Pipeline {
    limiter: ConcurrencyLimiter,
    records: Vec<Address>,
    status: Vec<RecordStatus>,
    cursor: usize,
    outcomes: Vec<Outcome>,
    /// Which record each collected outcome belongs to, in completion order.
    finished: Ghost<Seq<int>>,
}

/// Records viewed as their mathematical values.
pub open spec fn records_view(records: Vec<Address>) -> Seq<AddressV> {
    records@.map_values(|a: Address| a@)
}

/// Outcomes viewed as their mathematical values.
pub open spec fn outcomes_view(outcomes: Vec<Outcome>) -> Seq<OutcomeV> {
    outcomes@.map_values(|o: Outcome| o@)
}

impl Pipeline {
    /// The input records' values, fixed for the whole run.
    pub closed spec fn spec_inputs(self) -> Seq<AddressV> {
        records_view(self.records)
    }

    /// Where each record stands.
    pub closed spec fn spec_status(self) -> Seq<RecordStatus> {
        self.status@
    }

    /// The outcomes collected so far, in completion order.
    pub closed spec fn spec_outcomes(self) -> Seq<OutcomeV> {
        outcomes_view(self.outcomes)
    }

    /// How many records have been started.
    pub closed spec fn spec_started(self) -> int {
        self.cursor as int
    }

    /// The admission ceiling.
    pub closed spec fn spec_ceiling(self) -> nat {
        self.limiter.spec_ceiling()
    }

    /// How many service calls are out.
    pub closed spec fn spec_in_flight(self) -> nat {
        self.limiter.spec_in_flight()
    }

    /// The run's invariant: the limiter is within its ceiling and counts
    /// exactly the in-flight records; started and pending records are split
    /// at the cursor; there is exactly one collected outcome per finished
    /// record; and every input coordinate is within bounds.
    pub closed spec fn wf(self) -> bool {
        &&& self.limiter.wf()
        &&& self.status@.len() == self.records@.len()
        &&& self.cursor as int <= self.records@.len()
        &&& forall|i: int|
            self.cursor as int <= i < self.status@.len() ==> #[trigger] self.status@[i]
                is Pending
        &&& forall|i: int|
            0 <= i < self.cursor as int ==> !(#[trigger] self.status@[i] is Pending)
        &&& count_status(self.status@, RecordStatus::InFlight) == self.limiter.spec_in_flight()
        &&& self.outcomes@.len() == count_status(self.status@, RecordStatus::Done)
        &&& forall|i: int| 0 <= i < self.records@.len() ==> (#[trigger] self.records@[i]).wf()
        &&& forall|j: int|
            0 <= j < self.outcomes@.len() ==> outcome_wf(
                #[trigger] outcomes_view(self.outcomes)[j],
            )
        &&& self.finished@.len() == self.outcomes@.len()
        &&& forall|j: int|
            0 <= j < self.finished@.len() ==> 0 <= #[trigger] self.finished@[j]
                < self.records@.len() && self.status@[self.finished@[j]] is Done
        &&& forall|j1: int, j2: int|
            0 <= j1 < j2 < self.finished@.len() ==> #[trigger] self.finished@[j1]
                != #[trigger] self.finished@[j2]
        &&& forall|j: int|
            0 <= j < self.finished@.len() ==> outcome_subject(
                #[trigger] outcomes_view(self.outcomes)[j],
            ) == input_reset(records_view(self.records)[self.finished@[j]])
    }

    /// Which record each collected outcome belongs to, in completion order.
    pub closed spec fn spec_finished_tokens(self) -> Seq<int> {
        self.finished@
    }

    /// All records started and no call still out.
    pub open spec fn spec_done(self) -> bool {
        self.spec_started() == self.spec_inputs().len() && self.spec_in_flight() == 0
    }

    /// A fresh run over `records` with an admission ceiling.
    pub fn new(records: Vec<Address>, ceiling: usize) -> (r: Pipeline)
        requires
            ceiling >= 1,
            forall|i: int| 0 <= i < records@.len() ==> (#[trigger] records@[i]).wf(),
        ensures
            r.wf(),
            r.spec_ceiling() == ceiling,
            r.spec_in_flight() == 0,
            r.spec_started() == 0,
            r.spec_inputs() == records_view(records),
            r.spec_outcomes() == Seq::<OutcomeV>::empty(),
    {
        let n = records.len();
        let mut status: Vec<RecordStatus> = Vec::new();
        let mut i: usize = 0;
        while i < n
            invariant
                i <= n,
                status@.len() == i,
                forall|k: int| 0 <= k < i ==> #[trigger] status@[k] is Pending,
            decreases n - i,
        {
            status.push(RecordStatus::Pending);
            i = i + 1;
        }
        proof {
            lemma_count_none(status@, RecordStatus::InFlight);
            lemma_count_none(status@, RecordStatus::Done);
        }
        Pipeline {
            limiter: ConcurrencyLimiter::new(ceiling),
            records,
            status,
            cursor: 0,
            outcomes: Vec::new(),
            finished: Ghost(Seq::empty()),
        }
    }

    /// The admission ceiling.
    pub fn ceiling(&self) -> (r: usize)
        ensures
            r == self.spec_ceiling(),
    {
        self.limiter.ceiling()
    }

    /// How many service calls are out right now.
    pub fn in_flight(&self) -> (r: usize)
        ensures
            r == self.spec_in_flight(),
    {
        self.limiter.in_flight_count()
    }

    /// Decides what happens next: admit the next record's lookup under the
    /// limiter, record an immediate failure for a record that cannot form a
    /// query, report saturation, or report that everything has started.
    pub fn step_start(&mut self) -> (r: StartStep)
        requires
            old(self).wf(),
        ensures
            final(self).wf(),
            final(self).spec_ceiling() == old(self).spec_ceiling(),
            final(self).spec_inputs() == old(self).spec_inputs(),
            final(self).spec_in_flight() <= final(self).spec_ceiling(),
            match r {
                StartStep::Call { token, query } => {
                    &&& token as int == old(self).spec_started()
                    &&& (token as int) < old(self).spec_inputs().len()
                    &&& spec_query(old(self).spec_inputs()[token as int]) == Option::Some(query@)
                    &&& final(self).spec_started() == old(self).spec_started() + 1
                    &&& final(self).spec_in_flight() == old(self).spec_in_flight() + 1
                    &&& final(self).spec_outcomes() == old(self).spec_outcomes()
                    &&& final(self).spec_status() == old(self).spec_status().update(
                        token as int,
                        RecordStatus::InFlight,
                    )
                },
                StartStep::Skipped => {
                    &&& old(self).spec_started() < old(self).spec_inputs().len()
                    &&& spec_query(old(self).spec_inputs()[old(self).spec_started()]) is None
                    &&& final(self).spec_started() == old(self).spec_started() + 1
                    &&& final(self).spec_in_flight() == old(self).spec_in_flight()
                    &&& final(self).spec_outcomes() == old(self).spec_outcomes().push(
                        OutcomeV::Failed(
                            old(self).spec_inputs()[old(self).spec_started()],
                            GeocodingErrorV::FileAddressNotFound,
                        ),
                    )
                },
                StartStep::Saturated => {
                    &&& old(self).spec_started() < old(self).spec_inputs().len()
                    &&& spec_query(old(self).spec_inputs()[old(self).spec_started()]) is Some
                    &&& old(self).spec_in_flight() == old(self).spec_ceiling()
                    &&& *final(self) == *old(self)
                },
                StartStep::Exhausted => {
                    &&& old(self).spec_started() == old(self).spec_inputs().len()
                    &&& *final(self) == *old(self)
                },
            },
    {
        if self.cursor == self.records.len() {
            return StartStep::Exhausted;
        }
        let token = self.cursor;
        let query_opt = self.records[token].get_address_with_group_name();
        match query_opt {
            Option::None => {
                let record = self.records[token].clone();
                proof {
                    lemma_count_update(
                        self.status@,
                        token as int,
                        RecordStatus::Done,
                        RecordStatus::InFlight,
                    );
                    lemma_count_update(
                        self.status@,
                        token as int,
                        RecordStatus::Done,
                        RecordStatus::Done,
                    );
                }
                self.status.set(token, RecordStatus::Done);
                self.outcomes.push(
                    Outcome::Failed(record, GeocodingError::FileAddressNotFound),
                );
                self.cursor = token + 1;
                proof {
                    self.finished@ = self.finished@.push(token as int);
                    assert(outcomes_view(self.outcomes) =~= outcomes_view(
                        old(self).outcomes,
                    ).push(
                        OutcomeV::Failed(
                            old(self).spec_inputs()[token as int],
                            GeocodingErrorV::FileAddressNotFound,
                        ),
                    ));
                    // The record just finished was pending before, while every
                    // earlier finished record was already done — so the token
                    // is new to the list.
                    assert forall|j: int| 0 <= j < old(self).finished@.len()
                        implies old(self).finished@[j] != token as int by {
                        assert(old(self).status@[old(self).finished@[j]] is Done);
                    }
                }
                StartStep::Skipped
            },
            Option::Some(query) => {
                if self.limiter.try_acquire() {
                    proof {
                        lemma_count_update(
                            self.status@,
                            token as int,
                            RecordStatus::InFlight,
                            RecordStatus::InFlight,
                        );
                        lemma_count_update(
                            self.status@,
                            token as int,
                            RecordStatus::InFlight,
                            RecordStatus::Done,
                        );
                    }
                    self.status.set(token, RecordStatus::InFlight);
                    self.cursor = token + 1;
                    StartStep::Call { token, query }
                } else {
                    StartStep::Saturated
                }
            },
        }
    }

    /// Collects the outcome of the call started under `token`: the slot is
    /// given back whatever the reply was, and exactly one outcome is
    /// recorded for the record.
    pub fn finish(&mut self, token: usize, reply: ServiceReply)
        requires
            old(self).wf(),
            (token as int) < old(self).spec_status().len(),
            old(self).spec_status()[token as int] is InFlight,
            reply.wf(),
        ensures
            final(self).wf(),
            final(self).spec_ceiling() == old(self).spec_ceiling(),
            final(self).spec_inputs() == old(self).spec_inputs(),
            final(self).spec_started() == old(self).spec_started(),
            final(self).spec_in_flight() == old(self).spec_in_flight() - 1,
            final(self).spec_in_flight() <= final(self).spec_ceiling(),
            final(self).spec_status() == old(self).spec_status().update(
                token as int,
                RecordStatus::Done,
            ),
            final(self).spec_outcomes() == old(self).spec_outcomes().push(
                spec_outcome(old(self).spec_inputs()[token as int], reply@),
            ),
            forall|j: int|
                0 <= j < final(self).spec_outcomes().len() ==> outcome_wf(
                    #[trigger] final(self).spec_outcomes()[j],
                ),
    {
        let record = self.records[token].clone();
        let outcome = outcome_of_reply(record, reply);
        proof {
            lemma_count_at_least_one(self.status@, token as int, RecordStatus::InFlight);
            lemma_count_update(
                self.status@,
                token as int,
                RecordStatus::Done,
                RecordStatus::InFlight,
            );
            lemma_count_update(self.status@, token as int, RecordStatus::Done, RecordStatus::Done);
        }
        self.status.set(token, RecordStatus::Done);
        self.outcomes.push(outcome);
        self.limiter.release();
        proof {
            self.finished@ = self.finished@.push(token as int);
            assert(outcomes_view(self.outcomes) =~= outcomes_view(old(self).outcomes).push(
                spec_outcome(old(self).spec_inputs()[token as int], reply@),
            ));
            // The record just finished was in flight before, while every
            // earlier finished record was already done — so the token is new
            // to the list.
            assert forall|j: int| 0 <= j < old(self).finished@.len() implies old(
                self,
            ).finished@[j] != token as int by {
                assert(old(self).status@[old(self).finished@[j]] is Done);
            }
            // Whatever the reply, the new outcome is about the token's record.
            match reply@ {
                ServiceReplyV::Results(rs) => {
                    if rs.len() > 0 {
                        lemma_parse_keeps_input_fields(
                            rs[0],
                            old(self).spec_inputs()[token as int],
                        );
                    }
                },
                ServiceReplyV::Failure(_) => {},
            }
        }
    }

    /// Whether every record has run to its outcome.
    pub fn is_done(&self) -> (r: bool)
        ensures
            r == self.spec_done(),
    {
        self.cursor == self.records.len() && self.limiter.in_flight_count() == 0
    }

    /// Hands the collected outcomes over once the run is done: exactly one
    /// per input record, in completion order.
    pub fn into_outcomes(self) -> (r: Vec<Outcome>)
        requires
            self.wf(),
            self.spec_done(),
        ensures
            outcomes_view(r) == self.spec_outcomes(),
            r@.len() == self.spec_inputs().len(),
            forall|j: int|
                0 <= j < outcomes_view(r).len() ==> outcome_wf(#[trigger] outcomes_view(r)[j]),
    {
        proof {
            lemma_count_zero(self.status@, RecordStatus::InFlight);
            assert forall|i: int| 0 <= i < self.status@.len() implies self.status@[i]
                == RecordStatus::Done by {
                assert(!(self.status@[i] is Pending));
                assert(self.status@[i] != RecordStatus::InFlight);
            }
            lemma_count_all(self.status@, RecordStatus::Done);
        }
        self.outcomes
    }
}

// ---------------------------------------------------------------------------
// The laws of a run.
// ---------------------------------------------------------------------------

/// No record is dropped or duplicated: a finished run holds exactly one
/// outcome per input record.
pub proof fn lemma_pipeline_no_loss(p: Pipeline)
    requires
        p.wf(),
        p.spec_done(),
    ensures
        p.spec_outcomes().len() == p.spec_inputs().len(),
{
    lemma_count_zero(p.spec_status(), RecordStatus::InFlight);
    assert forall|i: int| 0 <= i < p.spec_status().len() implies p.spec_status()[i]
        == RecordStatus::Done by {
        assert(!(p.spec_status()[i] is Pending));
        assert(p.spec_status()[i] != RecordStatus::InFlight);
    }
    lemma_count_all(p.spec_status(), RecordStatus::Done);
}

/// The outcomes of a finished run account for every input record exactly
/// once: there are as many outcomes as inputs, the j-th outcome is about
/// the record its token names, and no two outcomes share a token — so no
/// record is dropped and none is duplicated.
pub proof fn lemma_pipeline_accounts_for_each_record(p: Pipeline)
    requires
        p.wf(),
        p.spec_done(),
    ensures
        p.spec_outcomes().len() == p.spec_inputs().len(),
        p.spec_finished_tokens().len() == p.spec_inputs().len(),
        forall|j: int|
            0 <= j < p.spec_finished_tokens().len() ==> 0 <= #[trigger] p.spec_finished_tokens()[j]
                < p.spec_inputs().len(),
        forall|j1: int, j2: int|
            0 <= j1 < j2 < p.spec_finished_tokens().len() ==> #[trigger] p.spec_finished_tokens()[j1]
                != #[trigger] p.spec_finished_tokens()[j2],
        forall|j: int|
            0 <= j < p.spec_outcomes().len() ==> outcome_subject(#[trigger] p.spec_outcomes()[j])
                == input_reset(p.spec_inputs()[p.spec_finished_tokens()[j]]),
{
    lemma_pipeline_no_loss(p);
}

/// The limiter bound holds in every reachable state: the number of
/// concurrently-executing service calls never exceeds the ceiling.
pub proof fn lemma_pipeline_bounded(p: Pipeline)
    requires
        p.wf(),
    ensures
        p.spec_in_flight() <= p.spec_ceiling(),
{
}

// ---------------------------------------------------------------------------
// Reducing the outcome set under a failure policy.
// ---------------------------------------------------------------------------

/// The records of the resolved outcomes, in collection order.
pub open spec fn spec_resolved_subset(os: Seq<OutcomeV>) -> Seq<AddressV>
    decreases os.len(),
{
    if os.len() == 0 {
        Seq::empty()
    } else {
        spec_resolved_subset(os.drop_last()) + match os.last() {
            OutcomeV::Resolved(a) => seq![a],
            OutcomeV::Failed(_, _) => Seq::empty(),
        }
    }
}

/// The cause of the first failed outcome in collection order, if any
/// outcome failed.
pub open spec fn spec_first_failure(os: Seq<OutcomeV>) -> Option<GeocodingErrorV>
    decreases os.len(),
{
    if os.len() == 0 {
        Option::None
    } else {
        match os[0] {
            OutcomeV::Failed(_, e) => Option::Some(e),
            OutcomeV::Resolved(_) => spec_first_failure(os.drop_first()),
        }
    }
}

/// The resolved subset of well-formed outcomes holds only well-formed
/// records.
proof fn lemma_resolved_subset_wf(os: Seq<OutcomeV>)
    requires
        forall|i: int| 0 <= i < os.len() ==> outcome_wf(#[trigger] os[i]),
    ensures
        forall|i: int|
            0 <= i < spec_resolved_subset(os).len() ==> (#[trigger] spec_resolved_subset(os)[
                i
            ]).wf(),
    decreases os.len(),
{
    if os.len() > 0 {
        assert forall|i: int| 0 <= i < os.drop_last().len() implies outcome_wf(
            #[trigger] os.drop_last()[i],
        ) by {
            assert(os.drop_last()[i] == os[i]);
        }
        lemma_resolved_subset_wf(os.drop_last());
        assert(os.last() == os[os.len() - 1]);
        assert(outcome_wf(os.last()));
        let pre = spec_resolved_subset(os.drop_last());
        let whole = spec_resolved_subset(os);
        assert forall|i: int| 0 <= i < whole.len() implies (#[trigger] whole[i]).wf() by {
            if i < pre.len() {
                assert(whole[i] == pre[i]);
                assert(pre[i].wf());
            } else {
                match os.last() {
                    OutcomeV::Resolved(a) => {
                        assert(whole[i] == a);
                    },
                    OutcomeV::Failed(_, _) => {},
                }
            }
        }
    }
}

/// Dropping a resolved prefix does not change the first failure.
proof fn lemma_first_failure_skip_prefix(os: Seq<OutcomeV>, i: int)
    requires
        0 <= i <= os.len(),
        forall|k: int| 0 <= k < i ==> #[trigger] os[k] is Resolved,
    ensures
        spec_first_failure(os) == spec_first_failure(os.subrange(i, os.len() as int)),
    decreases i,
{
    if i == 0 {
        assert(os.subrange(0, os.len() as int) =~= os);
    } else {
        assert(os[0] is Resolved);
        assert(os.drop_first() =~= os.subrange(1, os.len() as int));
        assert forall|k: int| 0 <= k < i - 1 implies #[trigger] os.drop_first()[k]
            is Resolved by {
            assert(os.drop_first()[k] == os[k + 1]);
        }
        lemma_first_failure_skip_prefix(os.drop_first(), i - 1);
        assert(os.drop_first().subrange(i - 1, os.drop_first().len() as int) =~= os.subrange(
            i,
            os.len() as int,
        ));
    }
}

/// A first failure exists exactly when some outcome failed.
pub proof fn lemma_first_failure_iff(os: Seq<OutcomeV>)
    ensures
        (spec_first_failure(os) is Some) <==> (exists|i: int|
            0 <= i < os.len() && (#[trigger] os[i]) is Failed),
    decreases os.len(),
{
    if os.len() > 0 {
        match os[0] {
            OutcomeV::Failed(_, _) => {
                assert(os[0] is Failed);
            },
            OutcomeV::Resolved(_) => {
                lemma_first_failure_iff(os.drop_first());
                if spec_first_failure(os) is Some {
                    let i = choose|i: int|
                        0 <= i < os.drop_first().len() && (#[trigger] os.drop_first()[i])
                            is Failed;
                    assert(os.drop_first()[i] == os[i + 1]);
                    assert(os[i + 1] is Failed);
                }
                if exists|i: int| 0 <= i < os.len() && (#[trigger] os[i]) is Failed {
                    let i = choose|i: int| 0 <= i < os.len() && (#[trigger] os[i]) is Failed;
                    assert(i >= 1);
                    assert(os.drop_first()[i - 1] == os[i]);
                    assert(spec_first_failure(os.drop_first()) is Some);
                }
            },
        }
    }
}

/// Under the strict policy a single failed outcome is enough to fail the
/// whole batch: the reducer then surfaces a first failure and returns no
/// records.
pub proof fn lemma_strict_policy_surfaces_failure(os: Seq<OutcomeV>)
    requires
        exists|i: int| 0 <= i < os.len() && (#[trigger] os[i]) is Failed,
    ensures
        spec_first_failure(os) is Some,
{
    lemma_first_failure_iff(os);
}

/// Applies the failure policy to the complete outcome set. Under
/// skip-errors the result is exactly the resolved subset, failures
/// discarded; under the strict policy the first failure in collection order
/// fails the whole batch and no records are returned.
///
/// The pipeline collects outcomes in completion order, so "first failure"
/// means first to complete, not first in the input — a deliberate choice
/// that matches the concurrent fan-in.
pub fn reduce_outcomes(outcomes: &Vec<Outcome>, skip_error_check: bool) -> (r: Result<
    Vec<Address>,
    GeocodingError,
>)
    ensures
        match r {
            Ok(v) => {
                &&& records_view(v) == spec_resolved_subset(outcomes_view(*outcomes))
                &&& !skip_error_check ==> spec_first_failure(outcomes_view(*outcomes)) is None
                &&& (forall|i: int|
                    0 <= i < outcomes@.len() ==> outcome_wf(
                        #[trigger] outcomes_view(*outcomes)[i],
                    )) ==> forall|i: int| 0 <= i < v@.len() ==> (#[trigger] v@[i]).wf()
            },
            Err(e) => {
                &&& !skip_error_check
                &&& spec_first_failure(outcomes_view(*outcomes)) == Option::Some(e@)
            },
        },
{
    let ghost os = outcomes_view(*outcomes);
    let n = outcomes.len();
    if !skip_error_check {
        // We want to surface the first error we see.
        let mut i: usize = 0;
        while i < n
            invariant
                !skip_error_check,
                i <= n,
                n == outcomes@.len(),
                os == outcomes_view(*outcomes),
                forall|k: int| 0 <= k < i ==> #[trigger] os[k] is Resolved,
            decreases n - i,
        {
            match &outcomes[i] {
                Outcome::Failed(_, e) => {
                    let cause = e.clone();
                    proof {
                        lemma_first_failure_skip_prefix(os, i as int);
                        let suffix = os.subrange(i as int, os.len() as int);
                        assert(suffix.len() > 0);
                        assert(suffix[0] == os[i as int]);
                        assert(os[i as int] == outcomes@[i as int]@);
                        assert(suffix[0] is Failed);
                        assert(spec_first_failure(suffix) == Option::Some(cause@));
                    }
                    return Err(cause);
                },
                Outcome::Resolved(_) => {},
            }
            i = i + 1;
        }
        proof {
            lemma_first_failure_skip_prefix(os, n as int);
            assert(os.subrange(n as int, os.len() as int) =~= Seq::<OutcomeV>::empty());
        }
    }
    let mut found: Vec<Address> = Vec::new();
    let mut i: usize = 0;
    while i < n
        invariant
            i <= n,
            n == outcomes@.len(),
            os == outcomes_view(*outcomes),
            records_view(found) == spec_resolved_subset(os.subrange(0, i as int)),
        decreases n - i,
    {
        proof {
            assert(os.subrange(0, i as int + 1).drop_last() =~= os.subrange(0, i as int));
            assert(os.subrange(0, i as int + 1).last() == os[i as int]);
        }
        match &outcomes[i] {
            Outcome::Resolved(a) => {
                found.push(a.clone());
                proof {
                    assert(records_view(found) =~= spec_resolved_subset(
                        os.subrange(0, i as int + 1),
                    ));
                }
            },
            Outcome::Failed(_, _) => {
                proof {
                    assert(records_view(found) =~= spec_resolved_subset(
                        os.subrange(0, i as int + 1),
                    ));
                }
            },
        }
        i = i + 1;
    }
    proof {
        assert(os.subrange(0, n as int) =~= os);
        if forall|i: int| 0 <= i < os.len() ==> outcome_wf(#[trigger] os[i]) {
            lemma_resolved_subset_wf(os);
            assert forall|i: int| 0 <= i < found@.len() implies (#[trigger] found@[i]).wf() by {
                assert(records_view(found)[i] == found@[i]@);
                assert(spec_resolved_subset(os)[i].wf());
            }
        }
    }
    Ok(found)
}

} // verus!
