//! The runner's connection loop: connect, announce the identity, pump
//! messages until the connection ends, wait, and start over, for ever.

use vstd::prelude::*;
use futures::channel::mpsc::UnboundedSender;
use tokio_tungstenite::tungstenite::Message;
use crate::channel::{enqueue, frame_message};
use crate::model::{Frame, FrameView, Identity, IdentityView};
use crate::runner::config::{scheme, Configuration};

verus! {

/// How long, in seconds, the runner waits before it connects again.
pub const RECONNECT_BACKOFF_SECONDS: u64 = 5;

/// Where the connection loop stands.
#[derive(Debug, Clone, Copy, PartialEq, Eq, Structural)]
pub enum Phase {
    /// An attempt to connect is under way.
    Connecting,
    /// Connected; the identity is being announced.
    Greeting,
    /// Announced; messages flow both ways.
    Pumping,
    /// Waiting before the next attempt.
    Backoff,
}

/// What happened outside.
#[derive(Debug, Clone, Copy, PartialEq, Eq, Structural)]
pub enum Event {
    /// The attempt to connect failed.
    ConnectFailed,
    /// The connection stands.
    Connected,
    /// The announcement was queued, or could not be.
    Greeted(bool),
    /// One half of the pump failed, or the hub closed the connection.
    PumpEnded,
    /// The wait is over.
    BackoffOver,
}

/// What to do next.
#[derive(Debug, Clone, Copy, PartialEq, Eq, Structural)]
pub enum Action {
    /// Connect to the hub.
    Connect,
    /// Announce the identity.
    Greet,
    /// Pump messages until the connection ends.
    Pump,
    /// Wait this many seconds.
    Sleep(u64),
    /// The event does not belong to the phase: carry on.
    Nothing,
}

/// The loop, one step at a time. Every failure leads to the same fixed wait,
/// and every wait to a new attempt.
pub open spec fn transition(phase: Phase, event: Event) -> (Phase, Action) {
    match (phase, event) {
        (Phase::Connecting, Event::ConnectFailed) => (
            Phase::Backoff,
            Action::Sleep(RECONNECT_BACKOFF_SECONDS),
        ),
        (Phase::Connecting, Event::Connected) => (Phase::Greeting, Action::Greet),
        (Phase::Greeting, Event::Greeted(true)) => (Phase::Pumping, Action::Pump),
        (Phase::Greeting, Event::Greeted(false)) => (
            Phase::Backoff,
            Action::Sleep(RECONNECT_BACKOFF_SECONDS),
        ),
        (Phase::Pumping, Event::PumpEnded) => (
            Phase::Backoff,
            Action::Sleep(RECONNECT_BACKOFF_SECONDS),
        ),
        (Phase::Backoff, Event::BackoffOver) => (Phase::Connecting, Action::Connect),
        _ => (phase, Action::Nothing),
    }
}

/// The loop never ends: in every phase some event leads on, and the only way
/// out of a wait is a new attempt to connect.
pub proof fn lemma_loop_goes_on(phase: Phase)
    ensures
        exists|event: Event| #[trigger] transition(phase, event).1 != Action::Nothing,
        forall|event: Event|
            phase == Phase::Backoff && #[trigger] transition(phase, event).0 != phase
                ==> transition(phase, event) == (Phase::Connecting, Action::Connect),
{
    match phase {
        Phase::Connecting => {
            assert(transition(phase, Event::Connected).1 != Action::Nothing);
        },
        Phase::Greeting => {
            assert(transition(phase, Event::Greeted(true)).1 != Action::Nothing);
        },
        Phase::Pumping => {
            assert(transition(phase, Event::PumpEnded).1 != Action::Nothing);
        },
        Phase::Backoff => {
            assert(transition(phase, Event::BackoffOver).1 != Action::Nothing);
        },
    }
}

/// The wait is fixed: whenever the loop sleeps, it sleeps for
/// `RECONNECT_BACKOFF_SECONDS`, and then it is in the waiting phase.
pub proof fn lemma_backoff_is_fixed(phase: Phase, event: Event)
    ensures
        transition(phase, event).1 matches Action::Sleep(seconds) ==> seconds
            == RECONNECT_BACKOFF_SECONDS && transition(phase, event).0 == Phase::Backoff,
        transition(phase, event).0 == Phase::Backoff && phase != Phase::Backoff ==> transition(
            phase,
            event,
        ).1 == Action::Sleep(RECONNECT_BACKOFF_SECONDS),
{
}

/// The name of the account this process runs under.
///
/// Trusted: calls `whoami::username`. The name comes from the operating
/// system, so nothing is claimed of it.
#[verifier::external_body]
fn account_name() -> String {
    whoami::username()
}

/// A manager to manage all network activity with the relay.
#[derive(Debug)]
pub struct ConnectionManager {
    config: Configuration,
    phase: Phase,
}

impl ConnectionManager {
    /// A manager that is about to make its first attempt to connect.
    pub fn new(config: Configuration) -> (manager: ConnectionManager)
        ensures
            manager.config() == config,
            manager.phase() == Phase::Connecting,
    {
        ConnectionManager { config, phase: Phase::Connecting }
    }

    /// The configuration the manager was made with.
    pub closed spec fn config(&self) -> Configuration {
        self.config
    }

    /// Where the loop stands.
    pub closed spec fn phase(&self) -> Phase {
        self.phase
    }

    /// Where the loop stands.
    pub fn current_phase(&self) -> (phase: Phase)
        ensures
            phase == self.phase(),
    {
        self.phase
    }

    /// The address to connect to.
    pub fn url(&self) -> (url: String)
        ensures
            url@ == scheme(self.config().secure) + self.config().host@,
    {
        self.config.get_url()
    }

    /// Takes note of what happened and says what to do next.
    pub fn step(&mut self, event: Event) -> (action: Action)
        ensures
            (final(self).phase(), action) == transition(old(self).phase(), event),
            final(self).config() == old(self).config(),
    {
        let (phase, action) = match (self.phase, event) {
            (Phase::Connecting, Event::ConnectFailed) => (
                Phase::Backoff,
                Action::Sleep(RECONNECT_BACKOFF_SECONDS),
            ),
            (Phase::Connecting, Event::Connected) => (Phase::Greeting, Action::Greet),
            (Phase::Greeting, Event::Greeted(true)) => (Phase::Pumping, Action::Pump),
            (Phase::Greeting, Event::Greeted(false)) => (
                Phase::Backoff,
                Action::Sleep(RECONNECT_BACKOFF_SECONDS),
            ),
            (Phase::Pumping, Event::PumpEnded) => (
                Phase::Backoff,
                Action::Sleep(RECONNECT_BACKOFF_SECONDS),
            ),
            (Phase::Backoff, Event::BackoffOver) => (Phase::Connecting, Action::Connect),
            (phase, _) => (phase, Action::Nothing),
        };
        self.phase = phase;
        action
    }

    /// The frame that announces the account `zid` with the configured
    /// credential.
    pub fn greeting(&self, zid: String) -> (frame: Frame)
        ensures
            frame@ == FrameView::Init(
                IdentityView { handle: zid@, credential: self.config().token@ },
            ),
    {
        Frame::Init(Identity { handle: zid, credential: self.config.token.clone() })
    }

    /// Announces this runner on a connection that was just made: queues the
    /// greeting of the local account on `tx`, and steps on by whether the queue
    /// took it. Outside the greeting phase nothing is queued and nothing
    /// changes.
    pub fn greet(&mut self, tx: &UnboundedSender<Message>) -> (action: Action)
        ensures
            final(self).config() == old(self).config(),
            exists|queued: bool|
                (final(self).phase(), action) == #[trigger] transition(
                    old(self).phase(),
                    Event::Greeted(queued),
                ),
            old(self).phase() != Phase::Greeting ==> action == Action::Nothing && final(self).phase() == old(self).phase(),
    {
        match self.phase {
            Phase::Greeting => {},
            _ => {
                assert((self.phase(), Action::Nothing) == transition(
                    old(self).phase(),
                    Event::Greeted(true),
                ));
                return Action::Nothing;
            },
        }
        let frame = self.greeting(account_name());
        let queued = enqueue(tx, frame_message(&frame)).is_ok();
        let action = self.step(Event::Greeted(queued));
        assert((self.phase(), action) == transition(old(self).phase(), Event::Greeted(queued)));
        action
    }
}

} // verus!
