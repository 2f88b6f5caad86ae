//! The registry of managers: at most one per application identity.

use vstd::prelude::*;
use vstd::string::StringExecFns;
use crate::error::{Error, ErrorKind, ErrorView};
use crate::manager::{Directive, DirectiveView, LoopEvent, LoopEventView, Manager, ManagerView};
use crate::manifest::{InterfaceSecret, Manifest, ManifestView, PackageId, SecretView, Version};
use crate::signal::OnStop;

verus! {

/// An application identity: package id and version.
pub type Identity = (Seq<char>, Seq<char>);

/// The managers of all supervised applications, by application identity.
///
/// The registry is a plain value. A host that shares it between tasks guards
/// it with a lock of its own and holds that lock for one call at a time.
#[derive(Debug)]
pub struct ManagerMap {
    managers: Vec<Manager>,
}

/// Whether no two managers of `managers` supervise the same application.
spec fn distinct(managers: Seq<ManagerView>) -> bool {
    forall|i: int, j: int|
        0 <= i < j < managers.len() ==> (#[trigger] managers[i]).identity() != (
        #[trigger] managers[j]).identity()
}

/// Whether `managers[i]` supervises the application `id`.
spec fn supervised_at(managers: Seq<ManagerView>, id: Identity, i: int) -> bool {
    0 <= i < managers.len() && managers[i].identity() == id
}

/// The mapping that a list of managers stands for.
spec fn by_identity(managers: Seq<ManagerView>) -> Map<Identity, ManagerView> {
    Map::new(
        |id: Identity| exists|i: int| supervised_at(managers, id, i),
        |id: Identity| managers[choose|i: int| supervised_at(managers, id, i)],
    )
}

/// In a list without duplicates, every manager is the one that the mapping
/// holds for its application.
proof fn lemma_lookup(managers: Seq<ManagerView>, i: int)
    requires
        distinct(managers),
        0 <= i < managers.len(),
    ensures
        by_identity(managers).dom().contains(managers[i].identity()),
        by_identity(managers)[managers[i].identity()] == managers[i],
{
    assert(supervised_at(managers, managers[i].identity(), i));
}

/// Appending a manager for a new application inserts it into the mapping.
proof fn lemma_push(managers: Seq<ManagerView>, manager: ManagerView)
    requires
        distinct(managers),
        !by_identity(managers).dom().contains(manager.identity()),
    ensures
        distinct(managers.push(manager)),
        by_identity(managers.push(manager)) == by_identity(managers).insert(
            manager.identity(),
            manager,
        ),
{
    let more = managers.push(manager);
    assert forall|i: int, j: int| 0 <= i < j < more.len() implies (#[trigger] more[i]).identity() != (
    #[trigger] more[j]).identity() by {
        if j == managers.len() {
            assert(supervised_at(managers, more[i].identity(), i));
        }
    }
    assert forall|id: Identity|
        by_identity(more).dom().contains(id) <==> #[trigger] by_identity(managers).insert(
            manager.identity(),
            manager,
        ).dom().contains(id) by {
        if by_identity(more).dom().contains(id) {
            let i = choose|i: int| supervised_at(more, id, i);
            if i < managers.len() {
                assert(supervised_at(managers, id, i));
            }
        }
        if by_identity(managers).dom().contains(id) {
            let i = choose|i: int| supervised_at(managers, id, i);
            assert(supervised_at(more, id, i));
        }
        if id == manager.identity() {
            assert(supervised_at(more, id, managers.len() as int));
        }
    }
    assert forall|id: Identity| by_identity(more).dom().contains(id) implies #[trigger] by_identity(
        more,
    )[id] == by_identity(managers).insert(manager.identity(), manager)[id] by {
        let i = choose|i: int| supervised_at(more, id, i);
        if i < managers.len() {
            lemma_lookup(managers, i);
        }
    }
}

/// Replacing a manager by one for the same application replaces it in the
/// mapping.
proof fn lemma_update(managers: Seq<ManagerView>, i: int, manager: ManagerView)
    requires
        distinct(managers),
        0 <= i < managers.len(),
        manager.identity() == managers[i].identity(),
    ensures
        distinct(managers.update(i, manager)),
        by_identity(managers.update(i, manager)) == by_identity(managers).insert(
            manager.identity(),
            manager,
        ),
{
    let changed = managers.update(i, manager);
    assert forall|id: Identity|
        by_identity(changed).dom().contains(id) <==> #[trigger] by_identity(managers).insert(
            manager.identity(),
            manager,
        ).dom().contains(id) by {
        if by_identity(changed).dom().contains(id) {
            let a = choose|a: int| supervised_at(changed, id, a);
            assert(supervised_at(managers, id, a));
        }
        if by_identity(managers).dom().contains(id) {
            let a = choose|a: int| supervised_at(managers, id, a);
            assert(supervised_at(changed, id, a));
        }
        if id == manager.identity() {
            assert(supervised_at(changed, id, i));
        }
    }
    assert forall|id: Identity| by_identity(changed).dom().contains(id) implies #[trigger] by_identity(
        changed,
    )[id] == by_identity(managers).insert(manager.identity(), manager)[id] by {
        let a = choose|a: int| supervised_at(changed, id, a);
        lemma_lookup(managers, a);
    }
}

/// Taking a manager out of the list removes its application from the
/// mapping.
proof fn lemma_remove(managers: Seq<ManagerView>, i: int)
    requires
        distinct(managers),
        0 <= i < managers.len(),
    ensures
        distinct(managers.remove(i)),
        by_identity(managers.remove(i)) == by_identity(managers).remove(managers[i].identity()),
{
    let fewer = managers.remove(i);
    let gone = managers[i].identity();
    assert forall|a: int| 0 <= a < fewer.len() implies #[trigger] fewer[a] == (if a < i {
        managers[a]
    } else {
        managers[a + 1]
    }) by {}
    assert forall|id: Identity|
        by_identity(fewer).dom().contains(id) <==> #[trigger] by_identity(managers).remove(
            gone,
        ).dom().contains(id) by {
        if by_identity(fewer).dom().contains(id) {
            let a = choose|a: int| supervised_at(fewer, id, a);
            let x = if a < i { a } else { a + 1 };
            assert(supervised_at(managers, id, x));
        }
        if by_identity(managers).dom().contains(id) && id != gone {
            let x = choose|x: int| supervised_at(managers, id, x);
            let a = if x < i { x } else { x - 1 };
            assert(supervised_at(fewer, id, a));
        }
    }
    assert forall|id: Identity| by_identity(fewer).dom().contains(id) implies #[trigger] by_identity(
        fewer,
    )[id] == by_identity(managers).remove(gone)[id] by {
        let a = choose|a: int| supervised_at(fewer, id, a);
        let x = if a < i { a } else { a + 1 };
        lemma_lookup(managers, x);
    }
}

/// A list without duplicates stands for a mapping of as many entries.
proof fn lemma_size(managers: Seq<ManagerView>)
    requires
        distinct(managers),
    ensures
        by_identity(managers).dom().finite(),
        by_identity(managers).dom().len() == managers.len(),
    decreases managers.len(),
{
    if managers.len() == 0 {
        assert(by_identity(managers).dom() =~= Set::<Identity>::empty());
    } else {
        let before = managers.drop_last();
        let last = managers.last();
        lemma_size(before);
        lemma_push(before, last);
        assert(before.push(last) =~= managers);
    }
}

/// The registry after an application was added: unchanged if the application
/// has a manager already, else with a newly created manager for it.
pub open spec fn added(
    registry: Map<Identity, ManagerView>,
    manifest: ManifestView,
    secrets: Seq<SecretView>,
) -> Map<Identity, ManagerView> {
    if registry.dom().contains(manifest.identity()) {
        registry
    } else {
        registry.insert(manifest.identity(), ManagerView::created(manifest, secrets))
    }
}

/// The registry after each application of `applications` was added in turn.
pub open spec fn added_all(
    registry: Map<Identity, ManagerView>,
    applications: Seq<(ManifestView, Seq<SecretView>)>,
) -> Map<Identity, ManagerView>
    decreases applications.len(),
{
    if applications.len() == 0 {
        registry
    } else {
        added(
            added_all(registry, applications.drop_last()),
            applications.last().0,
            applications.last().1,
        )
    }
}

/// The registry after the loop of `id` reported `event`, and what the loop is
/// told. A loop whose manager is not in the registry is told to stop.
pub open spec fn advanced(
    registry: Map<Identity, ManagerView>,
    id: Identity,
    event: LoopEventView,
) -> (Map<Identity, ManagerView>, Option<DirectiveView>) {
    if registry.dom().contains(id) {
        (registry.insert(id, registry[id].step(event).0), registry[id].step(event).1)
    } else {
        (registry, Some(DirectiveView::Stop))
    }
}

/// The error for persisted state that lists an application twice.
pub open spec fn listed_twice(manifest: ManifestView) -> ErrorView {
    ErrorView {
        kind: ErrorKind::Initialization,
        message: "application "@ + manifest.id + " "@ + manifest.version + " is listed twice"@,
    }
}

/// The registry that persisted state stands for: every application that ran
/// when the state was written has a manager that is told to run it again.
/// State that lists an application twice contradicts itself.
pub open spec fn restored(applications: Seq<(ManifestView, Seq<SecretView>)>) -> Result<
    Map<Identity, ManagerView>,
    ErrorView,
>
    decreases applications.len(),
{
    if applications.len() == 0 {
        Ok(Map::empty())
    } else {
        match restored(applications.drop_last()) {
            Err(error) => Err(error),
            Ok(registry) => {
                let (manifest, secrets) = applications.last();
                if registry.dom().contains(manifest.identity()) {
                    Err(listed_twice(manifest))
                } else {
                    Ok(
                        registry.insert(
                            manifest.identity(),
                            ManagerView::created(manifest, secrets).sent(OnStop::Restart),
                        ),
                    )
                }
            },
        }
    }
}

/// Persisted state that contradicts itself in its first `n` entries
/// contradicts itself as a whole, in the same way.
proof fn lemma_restored_fails_for_good(applications: Seq<(ManifestView, Seq<SecretView>)>, n: int)
    requires
        0 <= n <= applications.len(),
        restored(applications.take(n)) is Err,
    ensures
        restored(applications) == restored(applications.take(n)),
    decreases applications.len() - n,
{
    if n < applications.len() {
        assert(applications.take(n + 1).drop_last() =~= applications.take(n));
        lemma_restored_fails_for_good(applications, n + 1);
    } else {
        assert(applications.take(n) =~= applications);
    }
}

impl View for ManagerMap {
    type V = Map<Identity, ManagerView>;

    closed spec fn view(&self) -> Map<Identity, ManagerView> {
        by_identity(self.managers.deep_view())
    }
}

impl ManagerMap {
    #[verifier::type_invariant]
    spec fn well_formed(self) -> bool {
        distinct(self.managers.deep_view())
    }

    /// A registry without managers.
    pub fn new() -> (registry: ManagerMap)
        ensures
            registry@ == Map::<Identity, ManagerView>::empty(),
    {
        let registry = ManagerMap { managers: Vec::new() };
        registry
    }

    /// Rebuilds the registry from the applications that persisted state lists
    /// as running.
    ///
    /// Every listed application gets a manager, and every such manager is
    /// sent `Restart`, so that its loop runs the application when it starts.
    /// State that lists an application twice is refused.
    pub fn init(applications: Vec<(Manifest, Vec<InterfaceSecret>)>) -> (result: Result<
        ManagerMap,
        Error,
    >)
        ensures
            match result {
                Ok(registry) => restored(applications.deep_view()) == Ok::<
                    Map<Identity, ManagerView>,
                    ErrorView,
                >(registry@),
                Err(error) => restored(applications.deep_view()) == Err::<
                    Map<Identity, ManagerView>,
                    ErrorView,
                >(error@),
            },
    {
        let ghost all = applications.deep_view();
        let ghost items = applications@;
        let mut registry = ManagerMap::new();
        for application in iter: applications
            invariant
                iter.seq() == items,
                all == applications.deep_view(),
                all.len() == items.len(),
                forall|i: int| 0 <= i < items.len() ==> all[i] == (#[trigger] items[i]).deep_view(),
                restored(all.take(iter.index() as int)) == Ok::<Map<Identity, ManagerView>, ErrorView>(
                    registry@,
                ),
        {
            let ghost n = iter.index() as int;
            assert(all.take(n + 1).drop_last() =~= all.take(n));
            let (manifest, secrets) = application;
            let id = manifest.identity();
            if registry.get(&id).is_some() {
                let mut message = String::from_str("application ");
                message.append(manifest.id.as_str());
                message.append(" ");
                message.append(manifest.version.as_str());
                message.append(" is listed twice");
                let error = Error { kind: ErrorKind::Initialization, message };
                proof {
                    lemma_restored_fails_for_good(all, n + 1);
                }
                return Err(error);
            }
            let ghost before = registry@;
            let _ = registry.add(manifest, secrets);
            registry.send(&id, OnStop::Restart);
            assert(registry@ =~= before.insert(
                id@,
                ManagerView::created(all[n].0, all[n].1).sent(OnStop::Restart),
            ));
        }
        assert(all.take(all.len() as int) =~= all);
        Ok(registry)
    }

    /// Takes the managers out, to be put back after a change.
    fn take(&mut self) -> (managers: Vec<Manager>)
        ensures
            managers == old(self).managers,
            final(self).managers@.len() == 0,
    {
        let mut managers: Vec<Manager> = Vec::new();
        core::mem::swap(&mut self.managers, &mut managers);
        managers
    }

    /// Where the manager of `id` is kept.
    fn position(&self, id: &(PackageId, Version)) -> (at: Option<usize>)
        ensures
            match at {
                Some(i) => supervised_at(self.managers.deep_view(), id@, i as int),
                None => !self@.dom().contains(id@),
            },
    {
        let mut i: usize = 0;
        while i < self.managers.len()
            invariant
                i <= self.managers.len(),
                forall|j: int| 0 <= j < i ==> (#[trigger] self.managers.deep_view()[j]).identity() != id@,
            decreases self.managers.len() - i,
        {
            if self.managers[i].supervises(id) {
                return Some(i);
            }
            i += 1;
        }
        None
    }

    /// The number of supervised applications.
    pub fn len(&self) -> (count: usize)
        ensures
            self@.dom().finite(),
            count == self@.dom().len(),
    {
        proof {
            use_type_invariant(self);
            lemma_size(self.managers.deep_view());
        }
        self.managers.len()
    }

    /// The manager of the application `id`, if it is supervised.
    pub fn get(&self, id: &(PackageId, Version)) -> (manager: Option<&Manager>)
        ensures
            match manager {
                Some(manager) => self@.dom().contains(id@) && self@[id@] == manager@,
                None => !self@.dom().contains(id@),
            },
    {
        match self.position(id) {
            Some(i) => {
                proof {
                    use_type_invariant(self);
                }
                Some(&self.managers[i])
            },
            None => None,
        }
    }

    /// Puts an application under supervision.
    ///
    /// If the application has a manager already, nothing changes: the first
    /// manager stays, and no second one is made. Either way the call
    /// succeeds.
    pub fn add(&mut self, manifest: Manifest, secrets: Vec<InterfaceSecret>) -> (result: Result<
        (),
        Error,
    >)
        ensures
            result is Ok,
            final(self)@ == added(old(self)@, manifest@, secrets.deep_view()),
    {
        let id = manifest.identity();
        match self.position(&id) {
            Some(i) => {
                proof {
                    use_type_invariant(&*self);
                }
            },
            None => {
                proof {
                    use_type_invariant(&*self);
                    lemma_push(
                        self.managers.deep_view(),
                        ManagerView::created(manifest@, secrets.deep_view()),
                    );
                }
                let manager = Manager::create(manifest, secrets);
                let mut managers = self.take();
                managers.push(manager);
                assert(managers.deep_view() =~= old(self).managers.deep_view().push(manager@));
                self.managers = managers;
            },
        }
        Ok(())
    }

    /// Ends the supervision of an application.
    ///
    /// The manager, if there was one, leaves the registry and is told to
    /// wind down before it is handed to the caller. A run session that is
    /// under way is not interrupted.
    pub fn remove(&mut self, id: &(PackageId, Version)) -> (removed: Option<Manager>)
        ensures
            final(self)@ == old(self)@.remove(id@),
            match removed {
                Some(manager) => old(self)@.dom().contains(id@) && manager@ == old(
                    self,
                )@[id@].shut_down(),
                None => !old(self)@.dom().contains(id@),
            },
    {
        match self.position(id) {
            Some(i) => {
                proof {
                    use_type_invariant(&*self);
                    lemma_remove(self.managers.deep_view(), i as int);
                }
                let mut managers = self.take();
                let mut manager = managers.remove(i);
                assert(managers.deep_view() =~= old(self).managers.deep_view().remove(i as int));
                self.managers = managers;
                manager.shutdown();
                Some(manager)
            },
            None => None,
        }
    }

    /// Sends an intent to the manager of `id`. Says whether there is one.
    pub fn send(&mut self, id: &(PackageId, Version), intent: OnStop) -> (delivered: bool)
        ensures
            delivered == old(self)@.dom().contains(id@),
            final(self)@ == if delivered {
                old(self)@.insert(id@, old(self)@[id@].sent(intent))
            } else {
                old(self)@
            },
    {
        match self.position(id) {
            Some(i) => {
                proof {
                    use_type_invariant(&*self);
                }
                let ghost before = self.managers.deep_view();
                let mut managers = self.take();
                let mut manager = managers.remove(i);
                manager.send(intent);
                proof {
                    lemma_update(before, i as int, manager@);
                }
                managers.insert(i, manager);
                assert(managers.deep_view() =~= before.update(i as int, manager@));
                self.managers = managers;
                true
            },
            None => false,
        }
    }

    /// Advances the supervision loop of `id` by one event.
    ///
    /// A loop whose manager has left the registry is told to stop.
    pub fn advance(&mut self, id: &(PackageId, Version), event: LoopEvent) -> (directive: Option<
        Directive,
    >)
        ensures
            (final(self)@, directive.deep_view()) == advanced(old(self)@, id@, event@),
    {
        match self.position(id) {
            Some(i) => {
                proof {
                    use_type_invariant(&*self);
                }
                let ghost before = self.managers.deep_view();
                let mut managers = self.take();
                let mut manager = managers.remove(i);
                let directive = manager.advance(event);
                proof {
                    lemma_update(before, i as int, manager@);
                }
                managers.insert(i, manager);
                assert(managers.deep_view() =~= before.update(i as int, manager@));
                self.managers = managers;
                directive
            },
            None => Some(Directive::Stop),
        }
    }
}

/// Whether every application of `applications` has the identity `id`.
pub open spec fn all_of(applications: Seq<(ManifestView, Seq<SecretView>)>, id: Identity) -> bool {
    forall|i: int| 0 <= i < applications.len() ==> (#[trigger] applications[i]).0.identity() == id
}

/// Adding is idempotent. However often one application is added, only the
/// first addition can make a manager; every later one finds it and changes
/// nothing. The registry is what it was after the first addition, and holds
/// one manager for the application.
pub proof fn lemma_added_once(
    registry: Map<Identity, ManagerView>,
    applications: Seq<(ManifestView, Seq<SecretView>)>,
    id: Identity,
)
    requires
        applications.len() > 0,
        all_of(applications, id),
    ensures
        added_all(registry, applications) == added(registry, applications[0].0, applications[0].1),
        added_all(registry, applications).dom().contains(id),
        added_all(registry, applications).remove(id) == registry.remove(id),
    decreases applications.len(),
{
    if applications.len() == 1 {
        assert(added_all(registry, applications.drop_last()) == registry);
    } else {
        let before = applications.drop_last();
        lemma_added_once(registry, before, id);
    }
}

/// After the supervision of an application has ended, no manager is found
/// for it. Whatever its loop reports next, the loop is told to stop, and the
/// report changes nothing in the registry. The manager that left was told to
/// wind down: see [`crate::manager::lemma_shut_down_stops`] for what that
/// means for a loop that is still driven through it.
pub proof fn lemma_removed_is_gone(
    registry: Map<Identity, ManagerView>,
    id: Identity,
    event: LoopEventView,
)
    ensures
        !registry.remove(id).dom().contains(id),
        advanced(registry.remove(id), id, event) == (
            registry.remove(id),
            Some(DirectiveView::Stop),
        ),
{
}

} // verus!
