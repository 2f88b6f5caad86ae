//! The manager of one application: its stop signal and its supervision loop.
//!
//! The loop looks at the signal between run sessions, never during one. On
//! `Sleep` it waits for the signal to change, on `Restart` it runs a session,
//! on `Exit` it stops for good. A session that ends cleanly also stops it; a
//! session that ends in any other way sends it back to the signal.

use vstd::prelude::*;
use crate::manifest::{
    copy_secrets,
    InterfaceSecret,
    Manifest,
    ManifestView,
    PackageId,
    SecretView,
    Version,
};
use crate::outcome::{Outcome, OutcomeView};
use crate::session::{RunSession, SessionView};
use crate::signal::{OnStop, SignalView, StopSignal};

verus! {

/// Where a supervision loop stands.
#[derive(Clone, Copy, Debug, PartialEq, Eq, Structural)]
pub enum Phase {
    /// Created; the loop has not looked at its signal yet.
    Idle,
    /// The loop saw `Sleep` and waits for the signal to change.
    Waiting,
    /// A run session is under way.
    Running,
    /// The loop has ended and will not run again.
    Stopped,
}

/// The mathematical content of a [`LoopEvent`].
pub enum LoopEventView {
    Started,
    Changed,
    Ended(OutcomeView),
}

/// What the host reports to a supervision loop.
#[derive(Debug, PartialEq, Eq)]
pub enum LoopEvent {
    /// The loop has been given a task to run in.
    Started,
    /// The wait for a change of the signal is over.
    Changed,
    /// The run session is over, with this outcome.
    Ended(Outcome),
}

impl View for LoopEvent {
    type V = LoopEventView;

    open spec fn view(&self) -> LoopEventView {
        match *self {
            LoopEvent::Started => LoopEventView::Started,
            LoopEvent::Changed => LoopEventView::Changed,
            LoopEvent::Ended(outcome) => LoopEventView::Ended(outcome@),
        }
    }
}

/// The mathematical content of a [`Directive`].
pub enum DirectiveView {
    Wait,
    Run(SessionView),
    Stop,
}

/// What a supervision loop asks its host to do next.
#[derive(Debug, PartialEq, Eq)]
pub enum Directive {
    /// Wait until the signal is sent to, then report `Changed`.
    Wait,
    /// Drive this run session to its end, then report `Ended`.
    Run(RunSession),
    /// End the loop's task. Nothing is to be reported any more.
    Stop,
}

impl View for Directive {
    type V = DirectiveView;

    open spec fn view(&self) -> DirectiveView {
        match *self {
            Directive::Wait => DirectiveView::Wait,
            Directive::Run(session) => DirectiveView::Run(session@),
            Directive::Stop => DirectiveView::Stop,
        }
    }
}

impl DeepView for Directive {
    type V = DirectiveView;

    open spec fn deep_view(&self) -> DirectiveView {
        self@
    }
}

/// The mathematical content of a [`Manager`].
pub struct ManagerView {
    pub manifest: ManifestView,
    pub secrets: Seq<SecretView>,
    pub signal: SignalView,
    pub phase: Phase,
}

/// The supervisor of one application.
#[derive(Debug)]
pub struct Manager {
    manifest: Manifest,
    secrets: Vec<InterfaceSecret>,
    signal: StopSignal,
    phase: Phase,
}

impl View for Manager {
    type V = ManagerView;

    closed spec fn view(&self) -> ManagerView {
        ManagerView {
            manifest: self.manifest@,
            secrets: self.secrets.deep_view(),
            signal: self.signal@,
            phase: self.phase,
        }
    }
}

impl DeepView for Manager {
    type V = ManagerView;

    open spec fn deep_view(&self) -> ManagerView {
        self@
    }
}

impl ManagerView {
    /// A manager as it is created: asleep, its loop not yet started.
    pub open spec fn created(manifest: ManifestView, secrets: Seq<SecretView>) -> ManagerView {
        ManagerView { manifest, secrets, signal: SignalView::initial(), phase: Phase::Idle }
    }

    /// The identity of the supervised application.
    pub open spec fn identity(self) -> (Seq<char>, Seq<char>) {
        self.manifest.identity()
    }

    /// This manager after `intent` was sent to it.
    pub open spec fn sent(self, intent: OnStop) -> ManagerView {
        ManagerView { signal: self.signal.sent(intent), ..self }
    }

    /// This manager after it was told to wind down.
    pub open spec fn shut_down(self) -> ManagerView {
        self.sent(OnStop::Exit)
    }

    /// Whether the loop, where it stands, waits for `event`.
    pub open spec fn accepts(self, event: LoopEventView) -> bool {
        match (self.phase, event) {
            (Phase::Idle, LoopEventView::Started) => true,
            (Phase::Waiting, LoopEventView::Changed) => true,
            (Phase::Running, LoopEventView::Ended(_)) => true,
            _ => false,
        }
    }

    /// The loop looks at its signal, marks it as seen, and does what it says.
    pub open spec fn consulted(self) -> (ManagerView, DirectiveView) {
        let seen = ManagerView { signal: self.signal.observed(), ..self };
        match self.signal.value {
            OnStop::Sleep => (ManagerView { phase: Phase::Waiting, ..seen }, DirectiveView::Wait),
            OnStop::Restart => (
                ManagerView { phase: Phase::Running, ..seen },
                DirectiveView::Run(SessionView::fresh(self.manifest, self.secrets)),
            ),
            OnStop::Exit => (ManagerView { phase: Phase::Stopped, ..seen }, DirectiveView::Stop),
        }
    }

    /// The manager after `event`, and what its loop asks for. An event that
    /// the loop does not wait for changes nothing and asks for nothing.
    pub open spec fn step(self, event: LoopEventView) -> (ManagerView, Option<DirectiveView>) {
        if !self.accepts(event) {
            (self, None)
        } else if event == LoopEventView::Ended(OutcomeView::Completed) {
            (ManagerView { phase: Phase::Stopped, ..self }, Some(DirectiveView::Stop))
        } else {
            (self.consulted().0, Some(self.consulted().1))
        }
    }

    /// The manager after each event of `events` was reported in turn.
    pub open spec fn after(self, events: Seq<LoopEventView>) -> ManagerView
        decreases events.len(),
    {
        if events.len() == 0 {
            self
        } else {
            self.after(events.drop_last()).step(events.last()).0
        }
    }

    /// What the loop asks for when `events[k]` is reported after the events
    /// before it; `None` if that event is not accepted.
    pub open spec fn answer(self, events: Seq<LoopEventView>, k: int) -> Option<DirectiveView> {
        self.after(events.take(k)).step(events[k]).1
    }
}

impl Manager {
    /// A manager for the given application. Its signal says `Sleep`: the
    /// application is not run before `Restart` is sent.
    pub fn create(manifest: Manifest, secrets: Vec<InterfaceSecret>) -> (manager: Manager)
        ensures
            manager@ == ManagerView::created(manifest@, secrets.deep_view()),
    {
        Manager { manifest, secrets, signal: StopSignal::new(), phase: Phase::Idle }
    }

    /// The supervised application.
    pub fn manifest(&self) -> (manifest: &Manifest)
        ensures
            manifest@ == self@.manifest,
    {
        &self.manifest
    }

    /// Whether this manager supervises the application with identity `id`.
    pub fn supervises(&self, id: &(PackageId, Version)) -> (same: bool)
        ensures
            same == (self@.identity() == id@),
    {
        self.manifest.id == id.0 && self.manifest.version == id.1
    }

    /// Where the loop stands.
    pub fn phase(&self) -> (phase: Phase)
        ensures
            phase == self@.phase,
    {
        self.phase
    }

    /// The intent that was sent last.
    pub fn intent(&self) -> (intent: OnStop)
        ensures
            intent == self@.signal.value,
    {
        self.signal.borrow()
    }

    /// Whether an intent was sent that the loop has not looked at yet.
    pub fn has_changed(&self) -> (changed: bool)
        ensures
            changed == self@.signal.changed,
    {
        self.signal.has_changed()
    }

    /// Sends an intent to the loop. It takes effect when the loop next looks
    /// at its signal; a session under way is not interrupted.
    pub fn send(&mut self, intent: OnStop)
        ensures
            final(self)@ == old(self)@.sent(intent),
    {
        self.signal.send(intent);
    }

    /// Tells the loop to wind down. To be called when the manager is given
    /// up, whether or not its loop still runs.
    pub fn shutdown(&mut self)
        ensures
            final(self)@ == old(self)@.shut_down(),
    {
        self.signal.send(OnStop::Exit);
    }

    /// Advances the loop by one event and says what its host is to do next.
    pub fn advance(&mut self, event: LoopEvent) -> (directive: Option<Directive>)
        ensures
            (final(self)@, directive.deep_view()) == old(self)@.step(event@),
    {
        let accepted = match (self.phase, &event) {
            (Phase::Idle, LoopEvent::Started) => true,
            (Phase::Waiting, LoopEvent::Changed) => true,
            (Phase::Running, LoopEvent::Ended(_)) => true,
            _ => false,
        };
        if !accepted {
            return None;
        }
        if let LoopEvent::Ended(Outcome::Completed) = event {
            self.phase = Phase::Stopped;
            return Some(Directive::Stop);
        }
        match self.signal.borrow_and_update() {
            OnStop::Sleep => {
                self.phase = Phase::Waiting;
                Some(Directive::Wait)
            },
            OnStop::Restart => {
                self.phase = Phase::Running;
                Some(
                    Directive::Run(
                        RunSession::start(self.manifest.snapshot(), copy_secrets(&self.secrets)),
                    ),
                )
            },
            OnStop::Exit => {
                self.phase = Phase::Stopped;
                Some(Directive::Stop)
            },
        }
    }
}

/// Whether the loop accepts `events[k]`, a report that a session is over.
pub open spec fn session_ends_at(manager: ManagerView, events: Seq<LoopEventView>, k: int) -> bool {
    events[k] is Ended && manager.answer(events, k) is Some
}

/// Whether the loop starts a run session in answer to `events[k]`.
pub open spec fn session_starts_at(manager: ManagerView, events: Seq<LoopEventView>, k: int) -> bool {
    manager.answer(events, k) matches Some(DirectiveView::Run(_))
}

/// Reporting one more event is one more step.
pub proof fn lemma_after_one_more(manager: ManagerView, events: Seq<LoopEventView>, n: int)
    requires
        0 <= n < events.len(),
    ensures
        manager.after(events.take(n + 1)) == manager.after(events.take(n)).step(events[n]).0,
{
    assert(events.take(n + 1).drop_last() =~= events.take(n));
}

/// Events move the loop and mark the signal as seen. They do not change the
/// intent that the signal holds, nor the application.
pub proof fn lemma_events_keep_intent(manager: ManagerView, events: Seq<LoopEventView>)
    ensures
        manager.after(events).signal.value == manager.signal.value,
        manager.after(events).manifest == manager.manifest,
        manager.after(events).secrets == manager.secrets,
    decreases events.len(),
{
    if events.len() > 0 {
        lemma_events_keep_intent(manager, events.drop_last());
    }
}

/// A loop that has stopped stays stopped.
proof fn lemma_stopped_for_good(manager: ManagerView, events: Seq<LoopEventView>, j: int, k: int)
    requires
        0 <= j <= k <= events.len(),
        manager.after(events.take(j)).phase == Phase::Stopped,
    ensures
        manager.after(events.take(k)).phase == Phase::Stopped,
    decreases k - j,
{
    if j < k {
        lemma_stopped_for_good(manager, events, j, k - 1);
        lemma_after_one_more(manager, events, k - 1);
    }
}

/// A manager that was told to wind down starts no further session and does
/// not go back to waiting. Its loop sees the `Exit` once: the first event it
/// accepts stops it, and it accepts none after that. If a session is under
/// way when the manager is told, the loop stops when that session ends,
/// however it ends.
pub proof fn lemma_shut_down_stops(manager: ManagerView, events: Seq<LoopEventView>)
    ensures
        manager.phase == Phase::Running ==> forall|outcome: OutcomeView|
            (#[trigger] manager.shut_down().step(LoopEventView::Ended(outcome))).1 == Some(
                DirectiveView::Stop,
            ),
        forall|k: int|
            0 <= k < events.len() ==> (#[trigger] manager.shut_down().answer(events, k)) is None
                || manager.shut_down().answer(events, k) == Some(DirectiveView::Stop),
        forall|j: int, k: int|
            0 <= j < k < events.len() && (#[trigger] manager.shut_down().answer(events, j)) is Some
                ==> (#[trigger] manager.shut_down().answer(events, k)) is None,
{
    let leaving = manager.shut_down();
    assert forall|k: int| 0 <= k < events.len() implies (#[trigger] leaving.answer(events, k)) is None
        || leaving.answer(events, k) == Some(DirectiveView::Stop) by {
        lemma_events_keep_intent(leaving, events.take(k));
    }
    assert forall|j: int, k: int|
        0 <= j < k < events.len() && (#[trigger] leaving.answer(events, j)) is Some implies (
    #[trigger] leaving.answer(events, k)) is None by {
        lemma_after_one_more(leaving, events, j);
        lemma_stopped_for_good(leaving, events, j + 1, k);
    }
}

/// A manager that is sent nothing after it was created never starts a
/// session, whatever it is told happened: its loop waits.
pub proof fn lemma_asleep_never_runs(
    manifest: ManifestView,
    secrets: Seq<SecretView>,
    events: Seq<LoopEventView>,
)
    ensures
        forall|k: int|
            0 <= k < events.len() ==> (#[trigger] ManagerView::created(manifest, secrets).answer(
                events,
                k,
            )) is None || ManagerView::created(manifest, secrets).answer(events, k) == Some(
                DirectiveView::Wait,
            ),
{
    let manager = ManagerView::created(manifest, secrets);
    assert forall|k: int| 0 <= k < events.len() implies (#[trigger] manager.answer(events, k)) is None
        || manager.answer(events, k) == Some(DirectiveView::Wait) by {
        lemma_asleep_stays_idle(manager, events.take(k));
    }
}

/// Without a new intent, a sleeping loop that does not run stays so.
proof fn lemma_asleep_stays_idle(manager: ManagerView, events: Seq<LoopEventView>)
    requires
        manager.signal.value == OnStop::Sleep,
        manager.phase == Phase::Idle || manager.phase == Phase::Waiting,
    ensures
        manager.after(events).signal.value == OnStop::Sleep,
        manager.after(events).phase == Phase::Idle || manager.after(events).phase == Phase::Waiting,
    decreases events.len(),
{
    if events.len() > 0 {
        lemma_asleep_stays_idle(manager, events.drop_last());
    }
}

/// While no session is reported over, a loop that runs one keeps running it.
proof fn lemma_running_until_ended(
    manager: ManagerView,
    events: Seq<LoopEventView>,
    j: int,
    k: int,
)
    requires
        0 <= j < k <= events.len(),
        manager.after(events.take(j + 1)).phase == Phase::Running,
    ensures
        manager.after(events.take(k)).phase == Phase::Running || exists|e: int|
            j < e < k && session_ends_at(manager, events, e),
    decreases k,
{
    if k > j + 1 {
        lemma_running_until_ended(manager, events, j, k - 1);
        lemma_after_one_more(manager, events, k - 1);
        if manager.after(events.take(k - 1)).phase == Phase::Running {
            if manager.after(events.take(k)).phase != Phase::Running {
                assert(session_ends_at(manager, events, k - 1));
            }
        } else {
            let e = choose|e: int| j < e < k - 1 && session_ends_at(manager, events, e);
            assert(j < e < k);
        }
    }
}

/// The sessions of one manager come one after the other: between the start
/// of one and the start of the next, the first was reported over.
pub proof fn lemma_sessions_in_sequence(
    manager: ManagerView,
    events: Seq<LoopEventView>,
    j: int,
    k: int,
)
    requires
        0 <= j < k < events.len(),
        session_starts_at(manager, events, j),
        session_starts_at(manager, events, k),
    ensures
        exists|e: int| j < e <= k && session_ends_at(manager, events, e),
{
    lemma_after_one_more(manager, events, j);
    lemma_running_until_ended(manager, events, j, k);
    if manager.after(events.take(k)).phase == Phase::Running {
        assert(session_ends_at(manager, events, k));
    } else {
        let e = choose|e: int| j < e < k && session_ends_at(manager, events, e);
        assert(j < e <= k);
    }
}

} // verus!
