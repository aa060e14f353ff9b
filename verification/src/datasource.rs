//! The search session driver: a per-query state machine over the provider's
//! two-phase "create, then poll until complete" protocol.
//!
//! The driver itself performs no I/O.  `pending_call` names the HTTP call
//! the session needs next; the caller performs it and feeds what came back
//! to `absorb`, which advances the state and yields the snapshot to keep,
//! if any.  A session is born `Fresh` (its one `create` call is still
//! owed), runs as `Running` with the token to poll, and ends `Terminated`;
//! a terminated session needs no further calls and absorbs nothing.

use vstd::prelude::*;

use crate::domain::Date;
use crate::domain::FlightsResponse;
use crate::domain::Place;
use crate::domain::spec_query_eq;
use crate::domain::Query;
use crate::domain::QueryLeg;
use crate::domain::ResponseStatus;

verus! {

/// How a session ended: the provider completed the search, or the session
/// failed (a transport error or a failed status).
#[derive(Clone, Copy, Debug, PartialEq, Eq, Structural)]
pub enum SessionOutcome {
    Complete,
    Failed,
}

/// The state of one search session.
pub enum SessionState {
    Fresh,
    Running { token: String },
    Terminated { outcome: SessionOutcome },
}

/// The HTTP call a session needs next.
pub enum SessionCall {
    Create,
    Poll { token: String },
    NoCall,
}

/// The kind of call a state asks for, without its payload.
#[derive(Clone, Copy, Debug, PartialEq, Eq, Structural)]
pub enum CallKind {
    Create,
    Poll,
    NoCall,
}

/// What came back from the call the caller performed: a decoded snapshot,
/// or a transport or decoding failure.
pub enum SessionEvent {
    Response(FlightsResponse),
    TransportFailed,
}

/// One per-query session: the query it searches for and where the session
/// stands.
pub struct Datasource {
    pub query: Query,
    pub state: SessionState,
}

/// The kind of HTTP call a session in state `s` issues when advanced: its
/// one `create` while `Fresh`, a `poll` while `Running`, none once
/// `Terminated`.
pub open spec fn spec_call_kind(s: SessionState) -> CallKind {
    match s {
        SessionState::Fresh => CallKind::Create,
        SessionState::Running { .. } => CallKind::Poll,
        SessionState::Terminated { .. } => CallKind::NoCall,
    }
}

/// The state a session moves to when `e` arrives in state `s`.  A transport
/// failure or a `failed` status terminates the session as `Failed`; a
/// `complete` status terminates it as `Complete`; any other snapshot leaves
/// a fresh session `Running` under the snapshot's token and a running
/// session where it was.  A terminated session never moves.
pub open spec fn spec_step(s: SessionState, e: SessionEvent) -> SessionState {
    match s {
        SessionState::Fresh => match e {
            SessionEvent::Response(resp) => {
                if resp.status is ResultStatusFailed {
                    SessionState::Terminated { outcome: SessionOutcome::Failed }
                } else {
                    SessionState::Running { token: resp.session_token }
                }
            },
            SessionEvent::TransportFailed => SessionState::Terminated {
                outcome: SessionOutcome::Failed,
            },
        },
        SessionState::Running { token } => match e {
            SessionEvent::Response(resp) => {
                if resp.status is ResultStatusComplete {
                    SessionState::Terminated { outcome: SessionOutcome::Complete }
                } else if resp.status is ResultStatusFailed {
                    SessionState::Terminated { outcome: SessionOutcome::Failed }
                } else {
                    SessionState::Running { token }
                }
            },
            SessionEvent::TransportFailed => SessionState::Terminated {
                outcome: SessionOutcome::Failed,
            },
        },
        SessionState::Terminated { .. } => s,
    }
}

/// The snapshot a session yields when `e` arrives in state `s`: the
/// response, except that a terminated session yields nothing and a failed
/// session (transport failure or `failed` status) surfaces nothing.
pub open spec fn spec_yield(s: SessionState, e: SessionEvent) -> Option<FlightsResponse> {
    match s {
        SessionState::Terminated { .. } => None,
        _ => match e {
            SessionEvent::Response(resp) => {
                if resp.status is ResultStatusFailed {
                    None
                } else {
                    Some(resp)
                }
            },
            SessionEvent::TransportFailed => None,
        },
    }
}

impl Datasource {
    /// A fresh session for `query`: no call made yet.
    pub fn new(query: Query) -> (d: Self)
        ensures
            d.query == query,
            d.state is Fresh,
    {
        Self { query, state: SessionState::Fresh }
    }

    /// The HTTP call this session needs next: `Create` exactly while fresh,
    /// `Poll` with the session's token while running, `NoCall` once
    /// terminated.
    pub fn pending_call(&self) -> (c: SessionCall)
        ensures
            self.state is Fresh ==> c is Create,
            self.state matches SessionState::Running { token } ==> (c matches SessionCall::Poll {
                token: t,
            } && t == token),
            self.state is Terminated ==> c is NoCall,
    {
        match &self.state {
            SessionState::Fresh => SessionCall::Create,
            SessionState::Running { token } => SessionCall::Poll { token: token.clone() },
            SessionState::Terminated { .. } => SessionCall::NoCall,
        }
    }

    /// Absorbs the result of the call, moving the session along the
    /// transition relation and yielding the snapshot to keep, if any.
    pub fn absorb(&mut self, event: SessionEvent) -> (r: Option<FlightsResponse>)
        ensures
            final(self).state == spec_step(old(self).state, event),
            final(self).query == old(self).query,
            r == spec_yield(old(self).state, event),
    {
        if matches!(self.state, SessionState::Terminated { .. }) {
            return None;
        }
        match event {
            SessionEvent::TransportFailed => {
                self.state = SessionState::Terminated { outcome: SessionOutcome::Failed };
                None
            },
            SessionEvent::Response(resp) => {
                if matches!(resp.status, ResponseStatus::ResultStatusFailed) {
                    self.state = SessionState::Terminated { outcome: SessionOutcome::Failed };
                    None
                } else if matches!(self.state, SessionState::Fresh) {
                    self.state = SessionState::Running { token: resp.session_token.clone() };
                    Some(resp)
                } else {
                    if matches!(resp.status, ResponseStatus::ResultStatusComplete) {
                        self.state = SessionState::Terminated {
                            outcome: SessionOutcome::Complete,
                        };
                    }
                    Some(resp)
                }
            },
        }
    }
}

/// The state a session that was born fresh is in after the first `i` of
/// the events in `events` have been absorbed.
pub open spec fn spec_state_at(events: Seq<SessionEvent>, i: int) -> SessionState
    decreases i,
{
    if i <= 0 {
        SessionState::Fresh
    } else {
        spec_step(spec_state_at(events, i - 1), events[i - 1])
    }
}

/// Law: over any run of a session, the `create` call is issued exactly
/// once, namely by the very first advance; every later advance issues a
/// `poll` or nothing.
pub proof fn lemma_single_create(events: Seq<SessionEvent>, i: int)
    requires
        0 <= i <= events.len(),
    ensures
        spec_call_kind(spec_state_at(events, i)) == CallKind::Create <==> i == 0,
{
}

/// Law: a terminated session stays terminated and issues no further HTTP
/// calls, however many more events arrive.
pub proof fn lemma_terminated_stays(events: Seq<SessionEvent>, i: int, j: int)
    requires
        0 <= i <= j <= events.len(),
        spec_state_at(events, i) is Terminated,
    ensures
        spec_state_at(events, j) is Terminated,
        spec_call_kind(spec_state_at(events, j)) == CallKind::NoCall,
    decreases j - i,
{
    if j > i {
        lemma_terminated_stays(events, i, j - 1);
    }
}

/// Whether `q` is `base` with the round trip `from -> to` on the pair's
/// outbound date and `to -> from` on its return date appended to its legs,
/// all other attributes unchanged.
pub open spec fn spec_query_with_legs(
    q: Query,
    base: Query,
    from: Place,
    to: Place,
    pair: (Date, Date),
) -> bool {
    &&& q.query_legs@ == base.query_legs@ + seq![
        QueryLeg { origin_place_id: from, destination_place_id: to, date: pair.0 },
        QueryLeg { origin_place_id: to, destination_place_id: from, date: pair.1 },
    ]
    &&& spec_query_eq(Query { query_legs: base.query_legs, ..q }, base)
}

/// Builds one query per date pair: the base query with the round trip's
/// two legs appended.
#[verifier::loop_isolation(false)]
pub fn build_queries(base: &Query, from: &Place, to: &Place, dates: &Vec<(Date, Date)>) -> (qs:
    Vec<Query>)
    ensures
        qs@.len() == dates@.len(),
        forall|i: int|
            0 <= i < dates@.len() ==> spec_query_with_legs(
                #[trigger] qs@[i],
                *base,
                *from,
                *to,
                dates@[i],
            ),
{
    let mut qs: Vec<Query> = Vec::new();
    let mut i: usize = 0;
    while i < dates.len()
        invariant
            0 <= i <= dates@.len(),
            qs@.len() == i,
            forall|k: int|
                0 <= k < i ==> spec_query_with_legs(#[trigger] qs@[k], *base, *from, *to, dates@[k]),
        decreases dates@.len() - i,
    {
        let pair = dates[i];
        let mut q = base.duplicate();
        let out_leg = QueryLeg::new(from.duplicate(), to.duplicate(), pair.0);
        q = q.set_query_leg(out_leg);
        let back_leg = QueryLeg::new(to.duplicate(), from.duplicate(), pair.1);
        q = q.set_query_leg(back_leg);
        proof {
            assert(q.query_legs@ =~= base.query_legs@ + seq![
                QueryLeg { origin_place_id: *from, destination_place_id: *to, date: pair.0 },
                QueryLeg { origin_place_id: *to, destination_place_id: *from, date: pair.1 },
            ]);
            assert(spec_query_with_legs(q, *base, *from, *to, dates@[i as int]));
        }
        qs.push(q);
        i = i + 1;
    }
    qs
}

} // verus!
