use vstd::prelude::*;
use crate::settings::Settings;

verus! {

/// The arguments given to the terminal: its launch flag, then the program
/// it is to run.
pub fn launch_arguments(settings: &Settings, target: &str) -> (r: Vec<String>)
    ensures
        r@.len() == 2,
        r@[0]@ == settings.terminal_arg@,
        r@[1]@ == target@,
{
    let mut r: Vec<String> = Vec::new();
    r.push(settings.terminal_arg.clone());
    r.push(String::from_str(target));
    r
}

/// The reply to a launch whose process started.
pub fn launched_message(target: &str) -> (r: String)
    ensures
        r@ == target@ + " launched"@,
{
    let mut r = String::from_str(target);
    r.append(" launched");
    r
}

/// A launch whose process could not be started.
pub struct SpawnError {
    pub target: String,
    pub message: String,
}

impl SpawnError {
    /// A description of the failure for the user.
    pub fn describe(&self) -> (r: String)
        ensures
            r@ == "Failed to spawn "@ + self.target@ + ": "@ + self.message@,
    {
        let mut r = String::from_str("Failed to spawn ");
        r.append(self.target.as_str());
        r.append(": ");
        r.append(self.message.as_str());
        r
    }
}

/// The notification that ends a launch.
pub enum LaunchEvent {
    /// The process was waited for and has exited, whatever its status.
    Completed(String),
    /// Waiting for the process failed.
    Failed(String),
}

impl LaunchEvent {
    /// The program that the launch ran.
    pub open spec fn target_of(&self) -> Seq<char> {
        match self {
            LaunchEvent::Completed(t) => t@,
            LaunchEvent::Failed(t) => t@,
        }
    }

    /// The name under which the event is sent to the user interface.
    pub fn name(&self) -> (r: String)
        ensures
            self is Completed ==> r@ == "app-exited"@,
            self is Failed ==> r@ == "app-exited-error"@,
    {
        match self {
            LaunchEvent::Completed(_) => String::from_str("app-exited"),
            LaunchEvent::Failed(_) => String::from_str("app-exited-error"),
        }
    }

    /// The program that the launch ran.
    pub fn target(&self) -> (r: String)
        ensures
            r@ == self.target_of(),
    {
        match self {
            LaunchEvent::Completed(t) => t.clone(),
            LaunchEvent::Failed(t) => t.clone(),
        }
    }
}

/// One launched process whose end has not yet been reported. Sessions share
/// nothing, so any number may be in flight at once.
pub struct LaunchSession {
    pub target: String,
    pub pending: bool,
}

/// The event that ends a session, from whether waiting for its process
/// succeeded. The exit status is not inspected.
pub open spec fn end_event(target: String, wait_ok: bool) -> LaunchEvent {
    if wait_ok {
        LaunchEvent::Completed(target)
    } else {
        LaunchEvent::Failed(target)
    }
}

/// The session and its notification after the wait for its process ends.
pub open spec fn step(s: LaunchSession, wait_ok: bool) -> (LaunchSession, Option<LaunchEvent>) {
    if s.pending {
        (LaunchSession { target: s.target, pending: false }, Some(end_event(s.target, wait_ok)))
    } else {
        (s, None)
    }
}

/// The notifications that a session gives when waits end with `waits`.
pub open spec fn notifications(s: LaunchSession, waits: Seq<bool>) -> Seq<LaunchEvent>
    decreases waits.len(),
{
    if waits.len() == 0 {
        Seq::empty()
    } else {
        let (next, ev) = step(s, waits[0]);
        let rest = notifications(next, waits.drop_first());
        match ev {
            Some(e) => seq![e] + rest,
            None => rest,
        }
    }
}

/// Starts a session from the result of spawning the process for `target`.
/// A spawn failure is returned at once, and no session exists to notify.
pub fn start_launch(target: &str, spawned: Result<(), String>) -> (r: Result<
    LaunchSession,
    SpawnError,
>)
    ensures
        spawned is Ok <==> r is Ok,
        r matches Ok(s) ==> s.target@ == target@ && s.pending,
        r matches Err(e) ==> e.target@ == target@ && (spawned matches Err(m) && e.message == m),
{
    match spawned {
        Ok(()) => Ok(LaunchSession { target: String::from_str(target), pending: true }),
        Err(m) => Err(SpawnError { target: String::from_str(target), message: m }),
    }
}

impl LaunchSession {
    /// Records that the wait for the process has ended and gives the
    /// notification to send, if one is still owed.
    pub fn finish(&mut self, wait_ok: bool) -> (r: Option<LaunchEvent>)
        ensures
            (*final(self), r) == step(*old(self), wait_ok),
    {
        if self.pending {
            self.pending = false;
            if wait_ok {
                Some(LaunchEvent::Completed(self.target.clone()))
            } else {
                Some(LaunchEvent::Failed(self.target.clone()))
            }
        } else {
            None
        }
    }
}

proof fn lemma_finished_is_silent(s: LaunchSession, waits: Seq<bool>)
    requires
        !s.pending,
    ensures
        notifications(s, waits).len() == 0,
    decreases waits.len(),
{
    if waits.len() > 0 {
        lemma_finished_is_silent(s, waits.drop_first());
    }
}

/// A started session notifies exactly once, when the wait for its process
/// first ends, with the event that this wait's outcome gives; a session that
/// has notified stays silent.
pub proof fn lemma_exactly_one_notification(s: LaunchSession, waits: Seq<bool>)
    requires
        s.pending,
        waits.len() > 0,
    ensures
        notifications(s, waits) == seq![end_event(s.target, waits[0])],
{
    let next = LaunchSession { target: s.target, pending: false };
    lemma_finished_is_silent(next, waits.drop_first());
    assert(notifications(next, waits.drop_first()) =~= Seq::empty());
    assert(notifications(s, waits) =~= seq![end_event(s.target, waits[0])]);
}

/// A finished session gives no notification however often it is told that
/// a wait has ended.
pub proof fn lemma_no_notification_after_end(s: LaunchSession, waits: Seq<bool>)
    requires
        !s.pending,
    ensures
        notifications(s, waits) == Seq::<LaunchEvent>::empty(),
{
    lemma_finished_is_silent(s, waits);
    assert(notifications(s, waits) =~= Seq::<LaunchEvent>::empty());
}

} // verus!
