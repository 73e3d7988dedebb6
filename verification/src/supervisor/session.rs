//! Supervision from its beginning to its end: polls, with a look for a signal
//! before each and a pause behind it.
//!
//! A [`Session`] says what the caller has to do next and takes what came of it.
use vstd::prelude::*;

use super::poll::{Supervisor, SupervisorView};
use super::types::{SupervisionReport, SupervisionView, SupervisorError, SupervisorErrorView};

verus! {

/// What the caller has to do next, and with what.
#[derive(Debug, PartialEq, Eq)]
pub enum Session {
    /// Block the termination signals, and prepare to receive them.
    OpenSignals(Supervisor),
    /// Look whether a termination signal came.
    CheckSignal(Supervisor),
    /// Poll once.
    Poll(Supervisor),
    /// Wait for the poll interval.
    Sleep(Supervisor),
    Finished(SupervisionReport),
    Failed(SupervisorError),
}

/// A session by its contents.
pub enum SessionView {
    OpenSignals(SupervisorView),
    CheckSignal(SupervisorView),
    Poll(SupervisorView),
    Sleep(SupervisorView),
    Finished(SupervisionView),
    Failed(SupervisorErrorView),
}

impl View for Session {
    type V = SessionView;

    open spec fn view(&self) -> SessionView {
        match self {
            Session::OpenSignals(supervisor) => SessionView::OpenSignals(supervisor@),
            Session::CheckSignal(supervisor) => SessionView::CheckSignal(supervisor@),
            Session::Poll(supervisor) => SessionView::Poll(supervisor@),
            Session::Sleep(supervisor) => SessionView::Sleep(supervisor@),
            Session::Finished(report) => SessionView::Finished(report@),
            Session::Failed(error) => SessionView::Failed(error@),
        }
    }
}

/// What came of the last action, by contents.
pub enum SessionEvent {
    /// The signals can be received, or the pause is over.
    Succeeded,
    /// The name of the signal that came, if one did.
    Signal(Option<Seq<char>>),
    Polled(SupervisorView),
    Failed(SupervisorErrorView),
}

impl SessionView {
    /// The session of a supervisor that has not polled yet.
    pub open spec fn start(supervisor: SupervisorView) -> SessionView {
        if supervisor.trees.len() == 0 {
            SessionView::Finished(supervisor.report)
        } else {
            SessionView::OpenSignals(supervisor)
        }
    }

    /// The session of a supervisor that has just polled.
    pub open spec fn after_poll(supervisor: SupervisorView) -> SessionView {
        if supervisor.trees.len() == 0 {
            SessionView::Finished(supervisor.report)
        } else {
            SessionView::Sleep(supervisor)
        }
    }

    /// The session after an outcome. One that does not answer it changes
    /// nothing.
    pub open spec fn next(self, event: SessionEvent) -> SessionView {
        match (self, event) {
            (SessionView::Finished(_), _) | (SessionView::Failed(_), _) => self,
            (_, SessionEvent::Failed(error)) => SessionView::Failed(error),
            (SessionView::OpenSignals(supervisor), SessionEvent::Succeeded) => {
                SessionView::CheckSignal(supervisor)
            },
            (SessionView::CheckSignal(supervisor), SessionEvent::Signal(signal)) => match signal {
                Some(name) => SessionView::Finished(
                    SupervisionView { termination_signal: Some(name), ..supervisor.report },
                ),
                None => SessionView::Poll(supervisor),
            },
            (SessionView::Poll(_), SessionEvent::Polled(supervisor)) => {
                SessionView::after_poll(supervisor)
            },
            (SessionView::Sleep(supervisor), SessionEvent::Succeeded) => {
                SessionView::CheckSignal(supervisor)
            },
            _ => self,
        }
    }

    /// The session after some outcomes.
    pub open spec fn after(self, events: Seq<SessionEvent>) -> SessionView
        decreases events.len(),
    {
        if events.len() == 0 {
            self
        } else {
            self.after(events.drop_last()).next(events.last())
        }
    }

    /// A session that goes on has a tree to watch.
    pub open spec fn has_work(self) -> bool {
        match self {
            SessionView::OpenSignals(supervisor) => supervisor.trees.len() > 0,
            SessionView::CheckSignal(supervisor) => supervisor.trees.len() > 0,
            SessionView::Poll(supervisor) => supervisor.trees.len() > 0,
            SessionView::Sleep(supervisor) => supervisor.trees.len() > 0,
            SessionView::Finished(_) => true,
            SessionView::Failed(_) => true,
        }
    }
}

impl Session {
    /// The session of a supervisor that has not polled yet. It is over where
    /// there is nothing to watch.
    pub fn begin(supervisor: Supervisor) -> (out: Session)
        ensures
            out@ == SessionView::start(supervisor@),
    {
        assert(supervisor@.trees.len() == supervisor.trees@.len());
        if supervisor.trees.len() == 0 {
            Session::Finished(supervisor.report)
        } else {
            Session::OpenSignals(supervisor)
        }
    }

    /// The signals can be received, or the pause is over.
    pub fn succeeded(self) -> (out: Session)
        ensures
            out@ == self@.next(SessionEvent::Succeeded),
    {
        match self {
            Session::OpenSignals(supervisor) => Session::CheckSignal(supervisor),
            Session::Sleep(supervisor) => Session::CheckSignal(supervisor),
            other => other,
        }
    }

    /// A signal was looked for.
    pub fn signal_checked(self, signal: Option<String>) -> (out: Session)
        ensures
            out@ == self@.next(
                SessionEvent::Signal(
                    match signal {
                        Some(name) => Some(name@),
                        None => None,
                    },
                ),
            ),
    {
        match self {
            Session::CheckSignal(supervisor) => match signal {
                Some(name) => {
                    let mut ended = supervisor;
                    ended.terminate(name.as_str());
                    Session::Finished(ended.report)
                },
                None => Session::Poll(supervisor),
            },
            other => other,
        }
    }

    /// The supervisor of a session has polled.
    pub fn polled(supervisor: Supervisor) -> (out: Session)
        ensures
            out@ == SessionView::after_poll(supervisor@),
    {
        assert(supervisor@.trees.len() == supervisor.trees@.len());
        if supervisor.trees.len() == 0 {
            Session::Finished(supervisor.report)
        } else {
            Session::Sleep(supervisor)
        }
    }

    /// An action failed, which ends the session.
    pub fn failed(error: SupervisorError) -> (out: Session)
        ensures
            out@ == SessionView::Failed(error@),
    {
        Session::Failed(error)
    }
}

/// A session that goes on has a tree to watch, whatever happens.
pub proof fn sessions_watch_something(start: SupervisorView, events: Seq<SessionEvent>)
    ensures
        SessionView::start(start).after(events).has_work(),
    decreases events.len(),
{
    if events.len() > 0 {
        sessions_watch_something(start, events.drop_last());
    }
}

/// A session comes to its end only where no tree is left or a signal came, and
/// its report names the signal that ended it.
pub proof fn sessions_end_for_a_reason(session: SessionView, event: SessionEvent)
    requires
        session.next(event) is Finished,
    ensures
        match (session, event) {
            (SessionView::Finished(_), _) => true,
            (SessionView::Poll(_), SessionEvent::Polled(supervisor)) => supervisor.trees.len() == 0,
            (SessionView::CheckSignal(_), SessionEvent::Signal(Some(name))) => {
                session.next(event)->Finished_0.termination_signal == Some(name)
            },
            _ => false,
        },
{
}

/// Every poll comes directly after a look for a signal that found none.
pub proof fn polls_follow_a_quiet_look(session: SessionView, event: SessionEvent)
    requires
        session.next(event) is Poll,
    ensures
        session is Poll || (session is CheckSignal && event == SessionEvent::Signal(None)),
{
}

/// What is over stays over: no poll follows the end or a failure.
pub proof fn ended_sessions_stay_ended(session: SessionView, events: Seq<SessionEvent>)
    requires
        session is Finished || session is Failed,
    ensures
        session.after(events) == session,
    decreases events.len(),
{
    if events.len() > 0 {
        ended_sessions_stay_ended(session, events.drop_last());
    }
}

} // verus!
