//! One run session: a single attempt to run an application's main process to
//! its end, with the application's address published while it runs.
//!
//! The session decides; its host acts. The host starts with
//! [`RunSession::start`] and the action [`SessionAction::Execute`], performs
//! each action it is given, and reports the result to [`run_main`] as an
//! event, until it is given [`SessionAction::Finish`].

use vstd::prelude::*;
use crate::address::Ipv4Address;
use crate::error::{Error, ErrorView};
use crate::inspect::{resolve_address, resolved, Inspection, InspectionView};
use crate::manifest::{
    bind_interfaces,
    bound,
    copy_names,
    InterfaceId,
    InterfaceSecret,
    Manifest,
    ManifestView,
    PackageId,
    SecretView,
};
use crate::outcome::{settle, settled, Outcome, OutcomeView, ProcessExit, ProcessExitView};

verus! {

/// The mathematical content of a [`SessionEvent`].
pub enum SessionEventView {
    Executed,
    Inspected(InspectionView),
    Polled(Option<ProcessExitView>),
    Published(Result<(), ErrorView>),
    Exited(ProcessExitView),
    Withdrawn,
}

/// What the host reports to a session after it performed an action.
#[derive(Debug, PartialEq, Eq)]
pub enum SessionEvent {
    /// The main process was started as a task of its own.
    Executed,
    /// The container was inspected.
    Inspected(Inspection),
    /// The process task was asked, without waiting, whether it has ended.
    Polled(Option<ProcessExit>),
    /// The network controller answered a publication.
    Published(Result<(), Error>),
    /// The process task was awaited and has ended.
    Exited(ProcessExit),
    /// The network controller was told to withdraw.
    Withdrawn,
}

impl View for SessionEvent {
    type V = SessionEventView;

    open spec fn view(&self) -> SessionEventView {
        match *self {
            SessionEvent::Executed => SessionEventView::Executed,
            SessionEvent::Inspected(inspection) => SessionEventView::Inspected(inspection@),
            SessionEvent::Polled(exit) => SessionEventView::Polled(exit.deep_view()),
            SessionEvent::Published(answer) => SessionEventView::Published(
                match answer {
                    Ok(_) => Ok(()),
                    Err(error) => Err(error@),
                },
            ),
            SessionEvent::Exited(exit) => SessionEventView::Exited(exit@),
            SessionEvent::Withdrawn => SessionEventView::Withdrawn,
        }
    }
}

/// The mathematical content of a [`SessionAction`].
pub enum SessionActionView {
    Execute,
    Inspect { delayed: bool },
    PollProcess,
    Publish { package: Seq<char>, address: Ipv4Address, bindings: Seq<SecretView> },
    AwaitProcess,
    Withdraw { package: Seq<char>, interfaces: Seq<Seq<char>> },
    Finish(OutcomeView),
}

/// What a session asks its host to do next.
#[derive(Debug, PartialEq, Eq)]
pub enum SessionAction {
    /// Start the application's main process as a task of its own, then
    /// report `Executed`.
    Execute,
    /// Inspect the application's container, after a pause if `delayed`, then
    /// report `Inspected`.
    Inspect { delayed: bool },
    /// Ask the process task, without waiting, whether it has ended, then
    /// report `Polled`.
    PollProcess,
    /// Publish the address under every listed interface, each with its
    /// secret, in one call to the network controller, then report
    /// `Published`.
    Publish { package: PackageId, address: Ipv4Address, bindings: Vec<InterfaceSecret> },
    /// Wait for the process task to end, then report `Exited`.
    AwaitProcess,
    /// Tell the network controller to withdraw the listed interfaces, then
    /// report `Withdrawn`.
    Withdraw { package: PackageId, interfaces: Vec<InterfaceId> },
    /// The session is over and this is its outcome.
    Finish(Outcome),
}

impl View for SessionAction {
    type V = SessionActionView;

    open spec fn view(&self) -> SessionActionView {
        match *self {
            SessionAction::Execute => SessionActionView::Execute,
            SessionAction::Inspect { delayed } => SessionActionView::Inspect { delayed },
            SessionAction::PollProcess => SessionActionView::PollProcess,
            SessionAction::Publish { package, address, bindings } => SessionActionView::Publish {
                package: package@,
                address,
                bindings: bindings.deep_view(),
            },
            SessionAction::AwaitProcess => SessionActionView::AwaitProcess,
            SessionAction::Withdraw { package, interfaces } => SessionActionView::Withdraw {
                package: package@,
                interfaces: interfaces.deep_view(),
            },
            SessionAction::Finish(outcome) => SessionActionView::Finish(outcome@),
        }
    }
}

impl DeepView for SessionAction {
    type V = SessionActionView;

    open spec fn deep_view(&self) -> SessionActionView {
        self@
    }
}

/// The mathematical content of a [`Stage`].
pub enum StageView {
    Created,
    Inspecting,
    Polling,
    Publishing,
    Running,
    Withdrawing(OutcomeView),
    Finished,
}

/// How far a session has come. Each stage but the last waits for one event.
#[derive(Debug, PartialEq, Eq)]
pub enum Stage {
    /// Waiting for `Executed`.
    Created,
    /// Waiting for `Inspected`.
    Inspecting,
    /// Waiting for `Polled`.
    Polling,
    /// Waiting for `Published`.
    Publishing,
    /// The address is published. Waiting for `Exited`.
    Running,
    /// The process has ended with this outcome. Waiting for `Withdrawn`.
    Withdrawing(Outcome),
    /// Over. No event is accepted.
    Finished,
}

impl View for Stage {
    type V = StageView;

    open spec fn view(&self) -> StageView {
        match *self {
            Stage::Created => StageView::Created,
            Stage::Inspecting => StageView::Inspecting,
            Stage::Polling => StageView::Polling,
            Stage::Publishing => StageView::Publishing,
            Stage::Running => StageView::Running,
            Stage::Withdrawing(outcome) => StageView::Withdrawing(outcome@),
            Stage::Finished => StageView::Finished,
        }
    }
}

/// The mathematical content of a [`RunSession`].
pub struct SessionView {
    pub manifest: ManifestView,
    pub secrets: Seq<SecretView>,
    pub stage: StageView,
}

/// The state of one run session.
///
/// It holds its own copy of the manifest and of the secrets: a change made to
/// the application while a session is under way does not reach that session.
#[derive(Debug, PartialEq, Eq)]
pub struct RunSession {
    manifest: Manifest,
    secrets: Vec<InterfaceSecret>,
    stage: Stage,
}

impl View for RunSession {
    type V = SessionView;

    closed spec fn view(&self) -> SessionView {
        SessionView {
            manifest: self.manifest@,
            secrets: self.secrets.deep_view(),
            stage: self.stage@,
        }
    }
}

impl DeepView for RunSession {
    type V = SessionView;

    open spec fn deep_view(&self) -> SessionView {
        self@
    }
}

impl SessionView {
    /// A session that has not done anything yet.
    pub open spec fn fresh(manifest: ManifestView, secrets: Seq<SecretView>) -> SessionView {
        SessionView { manifest, secrets, stage: StageView::Created }
    }

    /// This session at another stage.
    pub open spec fn at(self, stage: StageView) -> SessionView {
        SessionView { manifest: self.manifest, secrets: self.secrets, stage }
    }

    /// This session, over, with the action that says so.
    pub open spec fn finish(self, outcome: OutcomeView) -> (SessionView, Option<SessionActionView>) {
        (self.at(StageView::Finished), Some(SessionActionView::Finish(outcome)))
    }

    /// What follows the inspection that found the container: publication if
    /// the address can be read and every declared interface has a secret, the
    /// end of the session otherwise.
    pub open spec fn found(self, networks: Option<Seq<crate::inspect::NetworkView>>) -> (
        SessionView,
        Option<SessionActionView>,
    ) {
        match resolved(networks) {
            Err(error) => self.finish(OutcomeView::Failed(error)),
            Ok(address) => match bound(self.manifest.interfaces, self.secrets) {
                Err(error) => self.finish(OutcomeView::Failed(error)),
                Ok(bindings) => (
                    self.at(StageView::Publishing),
                    Some(
                        SessionActionView::Publish { package: self.manifest.id, address, bindings },
                    ),
                ),
            },
        }
    }

    /// The session after `event`, and the action it asks for. An event that
    /// the current stage does not wait for changes nothing and asks for
    /// nothing.
    pub open spec fn step(self, event: SessionEventView) -> (SessionView, Option<SessionActionView>) {
        match (self.stage, event) {
            (StageView::Created, SessionEventView::Executed) => (
                self.at(StageView::Inspecting),
                Some(SessionActionView::Inspect { delayed: false }),
            ),
            (StageView::Inspecting, SessionEventView::Inspected(InspectionView::NotFound)) => (
                self.at(StageView::Polling),
                Some(SessionActionView::PollProcess),
            ),
            (StageView::Inspecting, SessionEventView::Inspected(InspectionView::Failed(error))) => {
                self.finish(OutcomeView::Failed(error))
            },
            (StageView::Inspecting, SessionEventView::Inspected(InspectionView::Found(networks))) => {
                self.found(networks)
            },
            (StageView::Polling, SessionEventView::Polled(None)) => (
                self.at(StageView::Inspecting),
                Some(SessionActionView::Inspect { delayed: true }),
            ),
            (StageView::Polling, SessionEventView::Polled(Some(exit))) => self.finish(settled(exit)),
            (StageView::Publishing, SessionEventView::Published(Ok(_))) => (
                self.at(StageView::Running),
                Some(SessionActionView::AwaitProcess),
            ),
            (StageView::Publishing, SessionEventView::Published(Err(error))) => self.finish(
                OutcomeView::Failed(error),
            ),
            (StageView::Running, SessionEventView::Exited(exit)) => (
                self.at(StageView::Withdrawing(settled(exit))),
                Some(
                    SessionActionView::Withdraw {
                        package: self.manifest.id,
                        interfaces: self.manifest.interfaces,
                    },
                ),
            ),
            (StageView::Withdrawing(outcome), SessionEventView::Withdrawn) => self.finish(outcome),
            _ => (self, None),
        }
    }

    /// The session after each event of `events` was reported in turn.
    pub open spec fn after(self, events: Seq<SessionEventView>) -> SessionView
        decreases events.len(),
    {
        if events.len() == 0 {
            self
        } else {
            self.after(events.drop_last()).step(events.last()).0
        }
    }

    /// The action that the session asks for when `events[k]` is reported
    /// after the events before it; `None` if that event is not accepted.
    pub open spec fn answer(self, events: Seq<SessionEventView>, k: int) -> Option<SessionActionView> {
        self.after(events.take(k)).step(events[k]).1
    }
}

impl RunSession {
    /// A new session for the given application. The host is to perform
    /// [`SessionAction::Execute`] first.
    pub fn start(manifest: Manifest, secrets: Vec<InterfaceSecret>) -> (session: RunSession)
        ensures
            session@ == SessionView::fresh(manifest@, secrets.deep_view()),
    {
        RunSession { manifest, secrets, stage: Stage::Created }
    }

    /// How far the session has come.
    pub fn stage(&self) -> (stage: &Stage)
        ensures
            stage@ == self@.stage,
    {
        &self.stage
    }

    /// Whether the session is over.
    pub fn is_finished(&self) -> (finished: bool)
        ensures
            finished == (self@.stage is Finished),
    {
        match self.stage {
            Stage::Finished => true,
            _ => false,
        }
    }

    /// The application that the session runs.
    pub fn manifest(&self) -> (manifest: &Manifest)
        ensures
            manifest@ == self@.manifest,
    {
        &self.manifest
    }

    /// Ends the session with `outcome`.
    fn finish(&mut self, outcome: Outcome) -> (action: Option<SessionAction>)
        ensures
            (final(self)@, action.deep_view()) == old(self)@.finish(outcome@),
    {
        self.stage = Stage::Finished;
        Some(SessionAction::Finish(outcome))
    }

    /// Leaves the session as it is: the event was not one it waits for.
    fn ignore(&mut self, stage: Stage) -> (action: Option<SessionAction>)
        ensures
            final(self)@ == old(self)@.at(stage@),
            action is None,
    {
        self.stage = stage;
        None
    }

    /// Decides what follows the inspection that found the container.
    fn found(&mut self, networks: Option<Vec<crate::inspect::Network>>) -> (action: Option<
        SessionAction,
    >)
        ensures
            (final(self)@, action.deep_view()) == old(self)@.found(
                match networks {
                    Some(list) => Some(list.deep_view()),
                    None => None,
                },
            ),
    {
        match resolve_address(&networks) {
            Err(error) => self.finish(Outcome::Failed(error)),
            Ok(address) => match bind_interfaces(&self.manifest.interfaces, &self.secrets) {
                Err(error) => self.finish(Outcome::Failed(error)),
                Ok(bindings) => {
                    self.stage = Stage::Publishing;
                    Some(
                        SessionAction::Publish {
                            package: self.manifest.id.clone(),
                            address,
                            bindings,
                        },
                    )
                },
            },
        }
    }
}

/// Advances a run session by one event and says what its host is to do next.
///
/// The session starts the main process, then inspects the container until it
/// reports an address, looking after each fruitless inspection whether the
/// process has ended already. With an address it publishes every declared
/// interface at once, waits for the process to end, withdraws the interfaces
/// and finishes with the outcome of the process. It finishes early, with the
/// error as its outcome, when the engine fails, the address cannot be used, a
/// declared interface has no secret, or publication is refused; and with the
/// outcome of the process when that ends before an address was found.
///
/// An event that the session does not wait for is not accepted: the session
/// stays as it is and the result is `None`.
pub fn run_main(session: &mut RunSession, event: SessionEvent) -> (action: Option<SessionAction>)
    ensures
        (final(session)@, action.deep_view()) == old(session)@.step(event@),
{
    let mut stage = Stage::Finished;
    core::mem::swap(&mut session.stage, &mut stage);
    match stage {
        Stage::Created => match event {
            SessionEvent::Executed => {
                session.stage = Stage::Inspecting;
                Some(SessionAction::Inspect { delayed: false })
            },
            _ => session.ignore(stage),
        },
        Stage::Inspecting => match event {
            SessionEvent::Inspected(Inspection::NotFound) => {
                session.stage = Stage::Polling;
                Some(SessionAction::PollProcess)
            },
            SessionEvent::Inspected(Inspection::Failed(error)) => session.finish(
                Outcome::Failed(error),
            ),
            SessionEvent::Inspected(Inspection::Found(networks)) => {
                session.stage = Stage::Inspecting;
                session.found(networks)
            },
            _ => session.ignore(stage),
        },
        Stage::Polling => match event {
            SessionEvent::Polled(None) => {
                session.stage = Stage::Inspecting;
                Some(SessionAction::Inspect { delayed: true })
            },
            SessionEvent::Polled(Some(exit)) => session.finish(settle(exit)),
            _ => session.ignore(stage),
        },
        Stage::Publishing => match event {
            SessionEvent::Published(Ok(_)) => {
                session.stage = Stage::Running;
                Some(SessionAction::AwaitProcess)
            },
            SessionEvent::Published(Err(error)) => session.finish(Outcome::Failed(error)),
            _ => session.ignore(stage),
        },
        Stage::Running => match event {
            SessionEvent::Exited(exit) => {
                session.stage = Stage::Withdrawing(settle(exit));
                Some(
                    SessionAction::Withdraw {
                        package: session.manifest.id.clone(),
                        interfaces: copy_names(&session.manifest.interfaces),
                    },
                )
            },
            _ => session.ignore(stage),
        },
        Stage::Withdrawing(outcome) => match event {
            SessionEvent::Withdrawn => session.finish(outcome),
            _ => session.ignore(Stage::Withdrawing(outcome)),
        },
        Stage::Finished => session.ignore(stage),
    }
}

/// Whether every inspection that `events` reports found no container.
pub open spec fn finds_nothing(events: Seq<SessionEventView>) -> bool {
    forall|k: int|
        0 <= k < events.len() && (#[trigger] events[k]) is Inspected
            ==> events[k]->Inspected_0 is NotFound
}

/// Whether the session withdraws all interfaces of its application in answer
/// to `events[k]`.
pub open spec fn withdraws_at(session: SessionView, events: Seq<SessionEventView>, k: int) -> bool {
    session.answer(events, k) == Some(
        SessionActionView::Withdraw {
            package: session.manifest.id,
            interfaces: session.manifest.interfaces,
        },
    )
}

/// Whether the session finishes in answer to `events[k]`.
pub open spec fn finishes_at(session: SessionView, events: Seq<SessionEventView>, k: int) -> bool {
    session.answer(events, k) matches Some(SessionActionView::Finish(_))
}

/// Whether the session asks for publication in answer to `events[k]`.
pub open spec fn publishes_at(session: SessionView, events: Seq<SessionEventView>, k: int) -> bool {
    session.answer(events, k) matches Some(SessionActionView::Publish { .. })
}

/// Whether `events[k]` is the answer that publication succeeded, given to a
/// session that waited for it.
pub open spec fn published_at(session: SessionView, events: Seq<SessionEventView>, k: int) -> bool {
    events[k] matches SessionEventView::Published(Ok(_)) && session.answer(events, k) == Some(
        SessionActionView::AwaitProcess,
    )
}

/// Reporting one more event is one more step.
pub proof fn lemma_after_one_more(session: SessionView, events: Seq<SessionEventView>, n: int)
    requires
        0 <= n < events.len(),
    ensures
        session.after(events.take(n + 1)) == session.after(events.take(n)).step(events[n]).0,
{
    assert(events.take(n + 1).drop_last() =~= events.take(n));
}

/// A session runs one application from start to end: no event changes its
/// manifest or its secrets.
pub proof fn lemma_application_is_kept(session: SessionView, events: Seq<SessionEventView>)
    ensures
        session.after(events).manifest == session.manifest,
        session.after(events).secrets == session.secrets,
    decreases events.len(),
{
    if events.len() > 0 {
        lemma_application_is_kept(session, events.drop_last());
    }
}

/// As long as no inspection finds the container, a fresh session has neither
/// published nor promised to withdraw anything.
proof fn lemma_stage_while_nothing_found(session: SessionView, events: Seq<SessionEventView>)
    requires
        session.stage is Created,
        finds_nothing(events),
    ensures
        ({
            let stage = session.after(events).stage;
            stage is Created || stage is Inspecting || stage is Polling || stage is Finished
        }),
    decreases events.len(),
{
    if events.len() > 0 {
        let before = events.drop_last();
        lemma_stage_while_nothing_found(session, before);
    }
}

/// A session whose inspections never find the container does not publish and
/// does not withdraw. If it finishes, it does so on learning that the main
/// process has ended, and its outcome is the outcome of that process.
pub proof fn lemma_no_address_no_publication(
    manifest: ManifestView,
    secrets: Seq<SecretView>,
    events: Seq<SessionEventView>,
)
    requires
        finds_nothing(events),
    ensures
        forall|k: int|
            0 <= k < events.len() ==> match #[trigger] SessionView::fresh(manifest, secrets).answer(
                events,
                k,
            ) {
                Some(SessionActionView::Publish { .. }) => false,
                Some(SessionActionView::Withdraw { .. }) => false,
                Some(SessionActionView::AwaitProcess) => false,
                Some(SessionActionView::Finish(outcome)) => events[k] matches SessionEventView::Polled(
                    Some(exit),
                ) && outcome == settled(exit),
                _ => true,
            },
{
    let session = SessionView::fresh(manifest, secrets);
    assert forall|k: int| 0 <= k < events.len() implies match #[trigger] session.answer(events, k) {
        Some(SessionActionView::Publish { .. }) => false,
        Some(SessionActionView::Withdraw { .. }) => false,
        Some(SessionActionView::AwaitProcess) => false,
        Some(SessionActionView::Finish(outcome)) => events[k] matches SessionEventView::Polled(
            Some(exit),
        ) && outcome == settled(exit),
        _ => true,
    } by {
        let before = events.take(k);
        lemma_stage_while_nothing_found(session, before);
    }
}

/// Once publication has succeeded, the session is running, or has withdrawn
/// and waits to finish, or has withdrawn and then finished.
spec fn settles_after(
    session: SessionView,
    events: Seq<SessionEventView>,
    p: int,
    n: int,
) -> bool {
    let stage = session.after(events.take(n)).stage;
    ||| stage is Running
    ||| stage is Withdrawing && exists|w: int| p < w < n && withdraws_at(session, events, w)
    ||| stage is Finished && exists|w: int, f: int|
        p < w < f < n && withdraws_at(session, events, w) && finishes_at(session, events, f)
}

/// After a successful publication the session goes on as `settles_after`
/// says, however many events follow.
proof fn lemma_settles_after(session: SessionView, events: Seq<SessionEventView>, p: int, n: int)
    requires
        0 <= p < n <= events.len(),
        published_at(session, events, p),
    ensures
        settles_after(session, events, p, n),
    decreases n,
{
    lemma_after_one_more(session, events, n - 1);
    if n > p + 1 {
        lemma_settles_after(session, events, p, n - 1);
        lemma_application_is_kept(session, events.take(n - 1));
        let before = session.after(events.take(n - 1));
        if before.stage is Withdrawing {
            let w = choose|w: int| p < w < n - 1 && withdraws_at(session, events, w);
            if before.step(events[n - 1]).1 is Some {
                assert(withdraws_at(session, events, w) && finishes_at(session, events, n - 1));
            }
        } else if before.stage is Running {
            if before.step(events[n - 1]).1 is Some {
                assert(withdraws_at(session, events, n - 1));
            }
        } else {
            let (w, f) = choose|w: int, f: int|
                p < w < f < n - 1 && withdraws_at(session, events, w) && finishes_at(
                    session,
                    events,
                    f,
                );
            assert(p < w < f < n);
        }
    }
}

/// A session that has published and is over has withdrawn: after the
/// publication that succeeded it told its host to withdraw every interface of
/// the application, and only after that did it finish. This holds whatever
/// the outcome of the process was.
pub proof fn lemma_published_is_withdrawn(
    manifest: ManifestView,
    secrets: Seq<SecretView>,
    events: Seq<SessionEventView>,
    p: int,
)
    requires
        0 <= p < events.len(),
        published_at(SessionView::fresh(manifest, secrets), events, p),
        SessionView::fresh(manifest, secrets).after(events).stage is Finished,
    ensures
        exists|w: int, f: int|
            p < w < f < events.len() && withdraws_at(
                SessionView::fresh(manifest, secrets),
                events,
                w,
            ) && finishes_at(SessionView::fresh(manifest, secrets), events, f),
{
    let session = SessionView::fresh(manifest, secrets);
    lemma_settles_after(session, events, p, events.len() as int);
    assert(events.take(events.len() as int) =~= events);
}

/// Whether `events[k]` reports an inspection that found the container with an
/// address that can be used.
pub open spec fn finds_address_at(events: Seq<SessionEventView>, k: int) -> bool {
    events[k] matches SessionEventView::Inspected(InspectionView::Found(networks)) && resolved(
        networks,
    ) is Ok
}

/// A session for an application with a declared interface that has no secret
/// never asks for publication, whatever it is told. When an inspection gives
/// it a usable address, it finishes at once with the error that names the
/// first such interface.
pub proof fn lemma_missing_secret_no_publication(
    manifest: ManifestView,
    secrets: Seq<SecretView>,
    events: Seq<SessionEventView>,
)
    requires
        bound(manifest.interfaces, secrets) is Err,
    ensures
        forall|k: int|
            0 <= k < events.len() ==> !#[trigger] publishes_at(
                SessionView::fresh(manifest, secrets),
                events,
                k,
            ),
        forall|k: int|
            0 <= k < events.len() && finds_address_at(events, k) && (#[trigger] SessionView::fresh(
                manifest,
                secrets,
            ).answer(events, k)) is Some ==> SessionView::fresh(manifest, secrets).answer(events, k)
                == Some(
                SessionActionView::Finish(
                    OutcomeView::Failed(bound(manifest.interfaces, secrets)->Err_0),
                ),
            ),
{
    let session = SessionView::fresh(manifest, secrets);
    assert forall|k: int| 0 <= k < events.len() implies !#[trigger] publishes_at(
        session,
        events,
        k,
    ) by {
        lemma_application_is_kept(session, events.take(k));
    }
    assert forall|k: int|
        0 <= k < events.len() && finds_address_at(events, k) && (#[trigger] session.answer(
            events,
            k,
        )) is Some implies session.answer(events, k) == Some(
        SessionActionView::Finish(OutcomeView::Failed(bound(manifest.interfaces, secrets)->Err_0)),
    ) by {
        lemma_application_is_kept(session, events.take(k));
    }
}

/// How far a session has come, as a number. No event takes a session back,
/// except from looking at the process to inspecting again.
spec fn progress(stage: StageView) -> int {
    match stage {
        StageView::Created => 0,
        StageView::Inspecting => 1,
        StageView::Polling => 1,
        StageView::Publishing => 2,
        StageView::Running => 3,
        StageView::Withdrawing(_) => 4,
        StageView::Finished => 5,
    }
}

/// The progress of a session never decreases.
proof fn lemma_no_way_back(session: SessionView, events: Seq<SessionEventView>, j: int, k: int)
    requires
        0 <= j <= k <= events.len(),
    ensures
        progress(session.after(events.take(j)).stage) <= progress(
            session.after(events.take(k)).stage,
        ),
    decreases k - j,
{
    if j < k {
        lemma_no_way_back(session, events, j, k - 1);
        lemma_after_one_more(session, events, k - 1);
    }
}

/// A session asks for publication at most once.
pub proof fn lemma_publishes_once(
    manifest: ManifestView,
    secrets: Seq<SecretView>,
    events: Seq<SessionEventView>,
    j: int,
    k: int,
)
    requires
        0 <= j < k < events.len(),
        publishes_at(SessionView::fresh(manifest, secrets), events, j),
    ensures
        !publishes_at(SessionView::fresh(manifest, secrets), events, k),
{
    let session = SessionView::fresh(manifest, secrets);
    lemma_after_one_more(session, events, j);
    lemma_no_way_back(session, events, j + 1, k);
}

/// A session that is running or withdrawing has been told that publication
/// succeeded.
proof fn lemma_running_was_published(session: SessionView, events: Seq<SessionEventView>, n: int)
    requires
        0 <= n <= events.len(),
        session.stage is Created,
        session.after(events.take(n)).stage is Running || session.after(
            events.take(n),
        ).stage is Withdrawing,
    ensures
        exists|p: int| 0 <= p < n && published_at(session, events, p),
    decreases n,
{
    if n == 0 {
        assert(events.take(0) =~= Seq::<SessionEventView>::empty());
    } else {
        lemma_after_one_more(session, events, n - 1);
        let before = session.after(events.take(n - 1)).stage;
        if before is Running || before is Withdrawing {
            lemma_running_was_published(session, events, n - 1);
            let p = choose|p: int| 0 <= p < n - 1 && published_at(session, events, p);
            assert(published_at(session, events, p));
        } else {
            assert(published_at(session, events, n - 1));
        }
    }
}

/// A session withdraws only what it has published, and only when the process
/// has ended: the withdrawal answers the end of the process, and before it
/// the session was told that publication succeeded.
pub proof fn lemma_withdrawn_was_published(
    manifest: ManifestView,
    secrets: Seq<SecretView>,
    events: Seq<SessionEventView>,
    w: int,
)
    requires
        0 <= w < events.len(),
        SessionView::fresh(manifest, secrets).answer(events, w) matches Some(
            SessionActionView::Withdraw { .. },
        ),
    ensures
        events[w] is Exited,
        withdraws_at(SessionView::fresh(manifest, secrets), events, w),
        exists|p: int| 0 <= p < w && published_at(SessionView::fresh(manifest, secrets), events, p),
{
    let session = SessionView::fresh(manifest, secrets);
    lemma_application_is_kept(session, events.take(w));
    lemma_running_was_published(session, events, w);
}

} // verus!
