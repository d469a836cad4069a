//! The connection and readiness supervisors: the decision rules of the
//! polling loops that watch the engine-reported connection state, hold the
//! interactive session until the data channel is ready, and bound the send
//! retry.
use vstd::prelude::*;

verus! {

/// The connection states the engine reports.
#[derive(Clone, Copy, PartialEq, Eq, Structural, Debug)]
pub enum EngineState {
    Unspecified,
    New,
    Connecting,
    Connected,
    Disconnected,
    Failed,
    Closed,
}

/// The phase of the overall connection attempt: `Connecting` until one of
/// the four terminal phases is reached.
#[derive(Clone, Copy, PartialEq, Eq, Structural, Debug)]
pub enum ConnectionPhase {
    Connecting,
    Connected,
    Failed,
    Closed,
    TimedOut,
}

/// One observation of a polling tick: the engine-reported state and the
/// wall-clock time elapsed since the attempt started.
#[derive(Clone, Copy, PartialEq, Eq, Structural, Debug)]
pub struct Obs {
    pub state: EngineState,
    pub elapsed_ms: u64,
}

/// The decision of one polling tick: a terminal engine state wins over
/// timeout expiry seen in the same tick; otherwise the attempt times out
/// once the elapsed time exceeds the limit; otherwise keep polling.
pub open spec fn step_decision(st: EngineState, elapsed_ms: u64, timeout_ms: u64) -> Option<
    ConnectionPhase,
> {
    if st == EngineState::Connected {
        Some(ConnectionPhase::Connected)
    } else if st == EngineState::Failed {
        Some(ConnectionPhase::Failed)
    } else if st == EngineState::Closed {
        Some(ConnectionPhase::Closed)
    } else if elapsed_ms > timeout_ms {
        Some(ConnectionPhase::TimedOut)
    } else {
        None
    }
}

/// One decision of the connection supervisor, for the caller that owns the
/// polling loop; `None` means keep polling.
pub fn supervise_step(st: EngineState, elapsed_ms: u64, timeout_ms: u64) -> (r: Option<
    ConnectionPhase,
>)
    ensures
        r == step_decision(st, elapsed_ms, timeout_ms),
{
    if st == EngineState::Connected {
        Some(ConnectionPhase::Connected)
    } else if st == EngineState::Failed {
        Some(ConnectionPhase::Failed)
    } else if st == EngineState::Closed {
        Some(ConnectionPhase::Closed)
    } else if elapsed_ms > timeout_ms {
        Some(ConnectionPhase::TimedOut)
    } else {
        None
    }
}

/// The terminal phase a whole sequence of polling observations leads to:
/// the decision of the first tick that decides anything, or none when the
/// recorded observations run out first.
pub open spec fn supervise_spec(obs: Seq<Obs>, timeout_ms: u64) -> Option<ConnectionPhase>
    decreases obs.len(),
{
    if obs.len() == 0 {
        None
    } else {
        match step_decision(obs[0].state, obs[0].elapsed_ms, timeout_ms) {
            Some(p) => Some(p),
            None => supervise_spec(obs.drop_first(), timeout_ms),
        }
    }
}

/// Run the supervisor over a recorded sequence of observations.
pub fn supervise_run(obs: &Vec<Obs>, timeout_ms: u64) -> (r: Option<ConnectionPhase>)
    ensures
        r == supervise_spec(obs@, timeout_ms),
{
    let n = obs.len();
    let mut i: usize = 0;
    proof {
        assert(obs@.skip(0) =~= obs@);
    }
    while i < n
        invariant
            n == obs@.len(),
            0 <= i <= n,
            supervise_spec(obs@.skip(i as int), timeout_ms) == supervise_spec(obs@, timeout_ms),
        decreases n - i,
    {
        let o = obs[i];
        proof {
            assert(obs@.skip(i as int)[0] == obs@[i as int]);
            assert(obs@.skip(i as int).drop_first() =~= obs@.skip(i as int + 1));
        }
        match supervise_step(o.state, o.elapsed_ms, timeout_ms) {
            Some(p) => {
                return Some(p);
            },
            None => (),
        }
        i += 1;
    }
    proof {
        assert(obs@.skip(i as int) =~= Seq::<Obs>::empty());
    }
    None
}

/// Whether a terminal phase counts as an established connection.
pub fn established(p: ConnectionPhase) -> (r: bool)
    ensures
        r == (p == ConnectionPhase::Connected),
{
    p == ConnectionPhase::Connected
}

/// The supervisor reaches exactly one terminal phase, the one decided by the
/// first deciding tick: earlier ticks decide nothing, so whatever stands at
/// the first deciding tick — a terminal engine state, or timeout expiry with
/// the terminal-state-wins precedence inside `step_decision` — is the
/// outcome of the whole run.
pub proof fn lemma_supervise_first_decision(obs: Seq<Obs>, timeout_ms: u64, k: int)
    requires
        0 <= k < obs.len(),
        forall|j: int|
            0 <= j < k ==> step_decision(
                #[trigger] obs[j].state,
                obs[j].elapsed_ms,
                timeout_ms,
            ) is None,
        step_decision(obs[k].state, obs[k].elapsed_ms, timeout_ms) is Some,
    ensures
        supervise_spec(obs, timeout_ms) == step_decision(
            obs[k].state,
            obs[k].elapsed_ms,
            timeout_ms,
        ),
    decreases k,
{
    if k == 0 {
    } else {
        let t = obs.drop_first();
        assert forall|j: int| 0 <= j < k - 1 implies step_decision(
            #[trigger] t[j].state,
            t[j].elapsed_ms,
            timeout_ms,
        ) is None by {
            assert(t[j] == obs[j + 1]);
        }
        assert(t[k - 1] == obs[k]);
        lemma_supervise_first_decision(t, timeout_ms, k - 1);
    }
}

/// When the timeout elapses at some tick before any terminal engine state
/// has been observed, the attempt ends as `TimedOut`.
pub proof fn lemma_supervise_times_out(obs: Seq<Obs>, timeout_ms: u64, k: int)
    requires
        0 <= k < obs.len(),
        forall|j: int|
            0 <= j <= k ==> (#[trigger] obs[j].state != EngineState::Connected && obs[j].state
                != EngineState::Failed && obs[j].state != EngineState::Closed),
        forall|j: int| 0 <= j < k ==> #[trigger] obs[j].elapsed_ms <= timeout_ms,
        obs[k].elapsed_ms > timeout_ms,
    ensures
        supervise_spec(obs, timeout_ms) == Some(ConnectionPhase::TimedOut),
{
    assert forall|j: int| 0 <= j < k implies step_decision(
        #[trigger] obs[j].state,
        obs[j].elapsed_ms,
        timeout_ms,
    ) is None by {
        assert(obs[j].elapsed_ms <= timeout_ms);
    }
    assert(step_decision(obs[k].state, obs[k].elapsed_ms, timeout_ms) == Some(
        ConnectionPhase::TimedOut,
    ));
    lemma_supervise_first_decision(obs, timeout_ms, k);
}

/// What the readiness supervisor does on one poll of the data-channel handle.
#[derive(Clone, Copy, PartialEq, Eq, Structural, Debug)]
pub enum ReadyDecision {
    /// The channel reports open: enter the interactive session.
    Ready,
    /// Keep polling.
    KeepWaiting,
    /// The wait timed out: proceed anyway rather than blocking forever.
    GiveUp,
}

/// The readiness rule: an open channel wins; past the timeout the session
/// starts anyway; otherwise keep waiting.
pub open spec fn readiness_decision(channel_open: bool, elapsed_ms: u64, timeout_ms: u64) -> ReadyDecision {
    if channel_open {
        ReadyDecision::Ready
    } else if elapsed_ms > timeout_ms {
        ReadyDecision::GiveUp
    } else {
        ReadyDecision::KeepWaiting
    }
}

/// One decision of the readiness supervisor.
pub fn readiness_step(channel_open: bool, elapsed_ms: u64, timeout_ms: u64) -> (r: ReadyDecision)
    ensures
        r == readiness_decision(channel_open, elapsed_ms, timeout_ms),
{
    if channel_open {
        ReadyDecision::Ready
    } else if elapsed_ms > timeout_ms {
        ReadyDecision::GiveUp
    } else {
        ReadyDecision::KeepWaiting
    }
}

/// Where an outgoing message stands in the bounded-recovery send path.
#[derive(Clone, Copy, PartialEq, Eq, Structural, Debug)]
pub enum SendPhase {
    /// No attempt made yet.
    FirstTry,
    /// The single timed wait has already been spent.
    Retry,
}

/// What to do with an outgoing message at this point.
#[derive(Clone, Copy, PartialEq, Eq, Structural, Debug)]
pub enum SendAction {
    /// The channel is open: hand the message to it.
    Transmit,
    /// Not open on the first attempt: wait once, then try again.
    WaitThenRetry,
    /// Still not open after the single retry: report failure.
    GiveUp,
}

/// The single-retry send rule: an unsent message gets exactly one timed
/// wait, never more — a deliberate bounded recovery, not a retry loop.
pub open spec fn send_decision(phase: SendPhase, channel_open: bool) -> SendAction {
    if channel_open {
        SendAction::Transmit
    } else {
        match phase {
            SendPhase::FirstTry => SendAction::WaitThenRetry,
            SendPhase::Retry => SendAction::GiveUp,
        }
    }
}

/// One decision of the send path.
pub fn send_step(phase: SendPhase, channel_open: bool) -> (r: SendAction)
    ensures
        r == send_decision(phase, channel_open),
{
    if channel_open {
        SendAction::Transmit
    } else {
        match phase {
            SendPhase::FirstTry => SendAction::WaitThenRetry,
            SendPhase::Retry => SendAction::GiveUp,
        }
    }
}

} // verus!
