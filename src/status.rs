use vstd::prelude::*;

verus! {

/// The lifecycle of one run.
#[derive(Clone, Copy, Debug, PartialEq, Eq, Structural)]
pub enum CtxStatus {
    Init,
    Running,
    Success,
    Error,
    Over,
}

/// What can happen to the status of a run.
#[derive(Clone, Copy, Debug, PartialEq, Eq, Structural)]
pub enum StatusEvent {
    /// The completion future is polled.
    Poll,
    /// The plan reported its end.
    Succeed,
    /// An error was captured.
    Fail,
    /// The driver observed the terminal state.
    Close,
}

/// What the completion future answers to one poll.
#[derive(Clone, Copy, Debug, PartialEq, Eq, Structural)]
pub enum CompletionPoll {
    /// The waker was registered and the run goes on.
    Pending,
    /// The run reached Success or Error.
    Ready,
    /// The future was woken while the run was still Running.
    AbnormalRunning,
    /// The future was polled after the run was closed.
    AbnormalOver,
}

pub open spec fn is_done(s: CtxStatus) -> bool {
    s is Success || s is Error
}

/// The status after one event.
pub open spec fn next_status(s: CtxStatus, e: StatusEvent) -> CtxStatus {
    match e {
        StatusEvent::Poll => if s is Init { CtxStatus::Running } else { s },
        StatusEvent::Succeed => if s is Init || s is Running { CtxStatus::Success } else { s },
        StatusEvent::Fail => if s is Init || s is Running { CtxStatus::Error } else { s },
        StatusEvent::Close => if is_done(s) { CtxStatus::Over } else { s },
    }
}

/// The status after a sequence of events.
pub open spec fn replay(s: CtxStatus, evs: Seq<StatusEvent>) -> CtxStatus
    decreases evs.len(),
{
    if evs.len() == 0 {
        s
    } else {
        replay(next_status(s, evs[0]), evs.subrange(1, evs.len() as int))
    }
}

/// Once a run has reached Success or Error, no sequence of events changes
/// its status, except to Over.
pub proof fn lemma_status_monotone(s: CtxStatus, evs: Seq<StatusEvent>)
    requires
        is_done(s),
    ensures
        replay(s, evs) == s || replay(s, evs) is Over,
    decreases evs.len(),
{
    if evs.len() > 0 {
        let n = next_status(s, evs[0]);
        let rest = evs.subrange(1, evs.len() as int);
        if n is Over {
            lemma_over_stays(rest);
        } else {
            lemma_status_monotone(n, rest);
        }
    }
}

/// Over is absorbing.
pub proof fn lemma_over_stays(evs: Seq<StatusEvent>)
    ensures
        replay(CtxStatus::Over, evs) is Over,
    decreases evs.len(),
{
    if evs.len() > 0 {
        lemma_over_stays(evs.subrange(1, evs.len() as int));
    }
}

impl CtxStatus {
    /// A fresh run starts in Init.
    pub fn new() -> (r: CtxStatus)
        ensures
            r is Init,
    {
        CtxStatus::Init
    }

    /// Whether the run has reached Success or Error.
    pub fn is_done(&self) -> (r: bool)
        ensures
            r == is_done(*self),
    {
        match self {
            CtxStatus::Success | CtxStatus::Error => true,
            _ => false,
        }
    }

    /// Marks the run successful. Returns whether a registered waker must be woken,
    /// which is the case exactly when the run leaves Running.
    pub fn success(&mut self) -> (wake: bool)
        ensures
            *final(self) == next_status(*old(self), StatusEvent::Succeed),
            wake == (*old(self) is Running),
    {
        match *self {
            CtxStatus::Init => {
                *self = CtxStatus::Success;
                false
            },
            CtxStatus::Running => {
                *self = CtxStatus::Success;
                true
            },
            _ => false,
        }
    }

    /// Marks the run failed. Returns whether a registered waker must be woken.
    pub fn set_error(&mut self) -> (wake: bool)
        ensures
            *final(self) == next_status(*old(self), StatusEvent::Fail),
            wake == (*old(self) is Running),
    {
        match *self {
            CtxStatus::Init => {
                *self = CtxStatus::Error;
                false
            },
            CtxStatus::Running => {
                *self = CtxStatus::Error;
                true
            },
            _ => false,
        }
    }

    /// One poll of the completion future: Init registers the waker and moves to
    /// Running; Success and Error are ready; Running and Over are abnormal wake-ups.
    pub fn poll_completion(&mut self) -> (r: CompletionPoll)
        ensures
            *final(self) == next_status(*old(self), StatusEvent::Poll),
            r == match *old(self) {
                CtxStatus::Init => CompletionPoll::Pending,
                CtxStatus::Running => CompletionPoll::AbnormalRunning,
                CtxStatus::Success => CompletionPoll::Ready,
                CtxStatus::Error => CompletionPoll::Ready,
                CtxStatus::Over => CompletionPoll::AbnormalOver,
            },
    {
        match *self {
            CtxStatus::Init => {
                *self = CtxStatus::Running;
                CompletionPoll::Pending
            },
            CtxStatus::Running => CompletionPoll::AbnormalRunning,
            CtxStatus::Success => CompletionPoll::Ready,
            CtxStatus::Error => CompletionPoll::Ready,
            CtxStatus::Over => CompletionPoll::AbnormalOver,
        }
    }

    /// The start gate: the first dispatch may begin once the status has left Init.
    pub fn gate_open(&self) -> (r: bool)
        ensures
            r == !(*self is Init),
    {
        match self {
            CtxStatus::Init => false,
            _ => true,
        }
    }

    /// The driver has observed the terminal state: Success and Error become Over.
    pub fn close(&mut self)
        ensures
            *final(self) == next_status(*old(self), StatusEvent::Close),
    {
        if self.is_done() {
            *self = CtxStatus::Over;
        }
    }
}

} // verus!
