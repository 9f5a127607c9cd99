use vstd::prelude::*;

verus! {

/// Where one worker stands in its dial, authenticate, serve, back off cycle.
pub enum WorkerState {
    /// Sleeping before the next attempt.
    Waiting,
    /// Dialing a route from the current dialer snapshot.
    Dialing,
    /// Authenticating on a dialed route; the route is deprioritized unless this succeeds.
    Authenticating(String),
    /// Serving connection requests over an authenticated session.
    Serving,
}

/// What the outside world reports to a worker.
pub enum Event {
    /// The back-off sleep ended.
    Slept,
    /// The dial succeeded and reached this route.
    Dialed(String),
    /// The dial failed or ran out of time, or its remote address was unreadable.
    DialFailed,
    /// The handshake succeeded within the time budget.
    AuthSucceeded,
    /// The handshake failed or the time budget ran out.
    AuthFailed,
    /// The proxy loop returned: its multiplexer died.
    ProxyEnded,
}

/// What a worker asks the outside world to do next.
pub enum Action {
    /// Publish `Connecting`, take the dialer snapshot and dial.
    Dial,
    /// Run the handshake on the dialed pipe.
    Authenticate,
    /// Publish `Connected` and run the proxy loop.
    Serve,
    /// Deprioritize this route, then sleep before retrying.
    Deprioritize(String),
    /// Sleep before retrying.
    Sleep,
    /// The event does not apply in this state.
    Ignore,
}

/// The worker's transition on an event.
pub open spec fn step_spec(s: WorkerState, e: Event) -> (WorkerState, Action) {
    match (s, e) {
        (WorkerState::Waiting, Event::Slept) => (WorkerState::Dialing, Action::Dial),
        (WorkerState::Dialing, Event::Dialed(route)) => (WorkerState::Authenticating(route), Action::Authenticate),
        (WorkerState::Dialing, Event::DialFailed) => (WorkerState::Waiting, Action::Sleep),
        (WorkerState::Authenticating(_), Event::AuthSucceeded) => (WorkerState::Serving, Action::Serve),
        (WorkerState::Authenticating(route), Event::AuthFailed) => (WorkerState::Waiting, Action::Deprioritize(route)),
        (WorkerState::Serving, Event::ProxyEnded) => (WorkerState::Waiting, Action::Sleep),
        (s, _) => (s, Action::Ignore),
    }
}

/// Moves a worker on by one event and says what to do next.
pub fn step(s: WorkerState, e: Event) -> (r: (WorkerState, Action))
    ensures
        r == step_spec(s, e),
{
    match (s, e) {
        (WorkerState::Waiting, Event::Slept) => (WorkerState::Dialing, Action::Dial),
        (WorkerState::Dialing, Event::Dialed(route)) => (WorkerState::Authenticating(route), Action::Authenticate),
        (WorkerState::Dialing, Event::DialFailed) => (WorkerState::Waiting, Action::Sleep),
        (WorkerState::Authenticating(_), Event::AuthSucceeded) => (WorkerState::Serving, Action::Serve),
        (WorkerState::Authenticating(route), Event::AuthFailed) => (WorkerState::Waiting, Action::Deprioritize(route)),
        (WorkerState::Serving, Event::ProxyEnded) => (WorkerState::Waiting, Action::Sleep),
        (s, _) => (s, Action::Ignore),
    }
}

/// The state after a run of events.
pub open spec fn run_state(s: WorkerState, es: Seq<Event>) -> WorkerState
    decreases es.len(),
{
    if es.len() == 0 {
        s
    } else {
        run_state(step_spec(s, es[0]).0, es.drop_first())
    }
}

/// How many times a run of events deprioritizes `route`.
pub open spec fn deprioritized(s: WorkerState, es: Seq<Event>, route: String) -> nat
    decreases es.len(),
{
    if es.len() == 0 {
        0
    } else {
        let (t, a) = step_spec(s, es[0]);
        (if a == Action::Deprioritize(route) { 1nat } else { 0nat }) + deprioritized(t, es.drop_first(), route)
    }
}

/// How many authentication attempts on `route` fail in a run of events.
pub open spec fn failed_on(s: WorkerState, es: Seq<Event>, route: String) -> nat
    decreases es.len(),
{
    if es.len() == 0 {
        0
    } else {
        let t = step_spec(s, es[0]).0;
        (if s == WorkerState::Authenticating(route) && es[0] == Event::AuthFailed { 1nat } else { 0nat })
            + failed_on(t, es.drop_first(), route)
    }
}

/// A route is deprioritized once for each failed dial-and-authenticate attempt on
/// it, and never otherwise: not on success, not when serving ends.
pub proof fn lemma_deprioritize_once_per_failure(s: WorkerState, es: Seq<Event>, route: String)
    ensures
        deprioritized(s, es, route) == failed_on(s, es, route),
    decreases es.len(),
{
    if es.len() > 0 {
        lemma_deprioritize_once_per_failure(step_spec(s, es[0]).0, es.drop_first(), route);
    }
}

} // verus!
