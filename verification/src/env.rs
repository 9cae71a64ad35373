//! Process registry: owns process identity and signal routing for one
//! isolation domain.

use vstd::prelude::*;

use crate::process::{Delivery, ProcessHandle, Signal};
use crate::registry_map::{registry_contents, registry_get, registry_insert, registry_new, registry_remove, RegistryMap};

verus! {

/// The registry and naming domain for a set of processes: a stable numeric
/// identity of its own, a monotonic process-id counter whose values are
/// never reissued, and a directory from live process id to handle.
///
/// A process id moves through three states: unassigned (never issued),
/// registered (a handle is present and signals are delivered), and retired
/// (the handle was removed; the id behaves as absent forever). Issuing,
/// registering and retiring are driven by the scheduler outside this
/// library; this type only exposes the primitives and keeps their
/// invariants.
pub struct Environment {
    environment_id: u64,
    next_process_id: u64,
    processes: RegistryMap,
    retired: Ghost<Set<u64>>,
}

impl Environment {
    /// The environment's own stable identity.
    pub closed spec fn id_view(self) -> u64 {
        self.environment_id
    }

    /// The next process id the counter will issue.
    pub closed spec fn next_id_view(self) -> u64 {
        self.next_process_id
    }

    /// The directory of currently registered processes.
    pub closed spec fn processes_view(self) -> Map<u64, ProcessHandle> {
        registry_contents(self.processes)
    }

    /// The ids whose handle was registered once and since removed; they are
    /// never reassigned.
    pub closed spec fn retired_view(self) -> Set<u64> {
        self.retired@
    }

    /// Whether this environment's counter has issued `id`.
    pub open spec fn issued(self, id: u64) -> bool {
        1 <= id < self.next_id_view()
    }

    /// Well-formedness: every registered or retired id was issued by this
    /// environment's counter, and no id is both registered and retired.
    pub open spec fn wf(self) -> bool {
        &&& self.next_id_view() >= 1
        &&& forall|id: u64| #[trigger] self.processes_view().dom().contains(id) ==> self.issued(id)
        &&& forall|id: u64| #[trigger] self.retired_view().contains(id) ==> self.issued(id)
        &&& forall|id: u64|
            #[trigger] self.processes_view().dom().contains(id) ==> !self.retired_view().contains(id)
    }

    /// Builds an empty environment with the given identity; the process-id
    /// counter starts at 1.
    pub fn new(id: u64) -> (e: Self)
        ensures
            e.wf(),
            e.id_view() == id,
            e.next_id_view() == 1,
            e.processes_view() == Map::<u64, ProcessHandle>::empty(),
            e.retired_view() == Set::<u64>::empty(),
    {
        Environment {
            environment_id: id,
            next_process_id: 1,
            processes: registry_new(),
            retired: Ghost(Set::empty()),
        }
    }

    /// The default local isolation domain, with identity 1.
    pub fn local() -> (e: Self)
        ensures
            e.wf(),
            e.id_view() == 1,
            e.next_id_view() == 1,
            e.processes_view() == Map::<u64, ProcessHandle>::empty(),
            e.retired_view() == Set::<u64>::empty(),
    {
        Self::new(1)
    }

    /// How one `get_next_process_id` call relates the environment before to
    /// the environment after and to the id it returns.
    pub open spec fn fresh_id_step(pre: Self, post: Self, r: u64) -> bool {
        &&& r == pre.next_id_view()
        &&& post.next_id_view() == pre.next_id_view() + 1
        &&& post.processes_view() == pre.processes_view()
        &&& post.retired_view() == pre.retired_view()
        &&& post.id_view() == pre.id_view()
    }

    /// Returns a fresh, never-before-issued process id: the counter value,
    /// which then increases. A returned id is never registered, never
    /// retired, and never returned again.
    pub fn get_next_process_id(&mut self) -> (r: u64)
        requires
            old(self).wf(),
            old(self).next_id_view() < u64::MAX,
        ensures
            final(self).wf(),
            Self::fresh_id_step(*old(self), *final(self), r),
            !old(self).processes_view().dom().contains(r),
            !old(self).retired_view().contains(r),
    {
        let r = self.next_process_id;
        self.next_process_id = self.next_process_id + 1;
        proof {
            let pre = *old(self);
            let post = *self;
            assert forall|k: u64| post.processes_view().dom().contains(k) implies post.issued(k) by {
                assert(pre.processes_view().dom().contains(k));
            }
            assert forall|k: u64| post.retired_view().contains(k) implies post.issued(k) by {
                assert(pre.retired_view().contains(k));
            }
            assert forall|k: u64| post.processes_view().dom().contains(k)
                implies !post.retired_view().contains(k) by {
                assert(pre.processes_view().dom().contains(k));
            }
        }
        r
    }

    /// The environment's own stable identity.
    pub fn id(&self) -> (r: u64)
        ensures
            r == self.id_view(),
    {
        self.environment_id
    }

    /// The currently registered handle for `id`, or nothing for a retired
    /// or never-issued id; absence is an ordinary result, not an error.
    pub fn get_process(&self, id: u64) -> (r: Option<ProcessHandle>)
        ensures
            r == if self.processes_view().dom().contains(id) {
                Some(self.processes_view()[id])
            } else {
                None::<ProcessHandle>
            },
    {
        registry_get(&self.processes, id)
    }

    /// Routes `signal` to the process registered under `id`: returns the
    /// delivery the runtime must perform, or nothing — silently, with no
    /// other effect — when no handle is registered there, so a sender is
    /// never blocked or errored by a terminated or never-spawned recipient.
    pub fn send(&self, id: u64, signal: Signal) -> (r: Option<Delivery>)
        ensures
            r == if self.processes_view().dom().contains(id) {
                Some(Delivery { handle: self.processes_view()[id], signal })
            } else {
                None::<Delivery>
            },
    {
        match registry_get(&self.processes, id) {
            Some(handle) => Some(Delivery { handle, signal }),
            None => None,
        }
    }

    /// Registers `handle` under `id`, which must have been issued by this
    /// environment's counter and be neither registered nor retired.
    pub fn add_process(&mut self, id: u64, handle: ProcessHandle)
        requires
            old(self).wf(),
            old(self).issued(id),
            !old(self).processes_view().dom().contains(id),
            !old(self).retired_view().contains(id),
        ensures
            final(self).wf(),
            final(self).processes_view() == old(self).processes_view().insert(id, handle),
            final(self).next_id_view() == old(self).next_id_view(),
            final(self).id_view() == old(self).id_view(),
            final(self).retired_view() == old(self).retired_view(),
    {
        let _prev = registry_insert(&mut self.processes, id, handle);
    }

    /// Removes the handle registered under `id` and retires the id forever;
    /// removing an absent id changes nothing. Returns the handle that was
    /// removed, if one was there.
    pub fn remove_process(&mut self, id: u64) -> (r: Option<ProcessHandle>)
        requires
            old(self).wf(),
        ensures
            final(self).wf(),
            final(self).processes_view() == old(self).processes_view().remove(id),
            final(self).retired_view() == if old(self).processes_view().dom().contains(id) {
                old(self).retired_view().insert(id)
            } else {
                old(self).retired_view()
            },
            final(self).next_id_view() == old(self).next_id_view(),
            final(self).id_view() == old(self).id_view(),
            r == if old(self).processes_view().dom().contains(id) {
                Some(old(self).processes_view()[id])
            } else {
                None::<ProcessHandle>
            },
    {
        let removed = registry_remove(&mut self.processes, id);
        if removed.is_some() {
            proof {
                self.retired@ = self.retired@.insert(id);
            }
        }
        proof {
            let pre = *old(self);
            let post = *self;
            assert forall|k: u64| post.processes_view().dom().contains(k) implies post.issued(k) by {
                assert(pre.processes_view().dom().contains(k));
            }
            assert forall|k: u64| post.retired_view().contains(k) implies post.issued(k) by {
                if !pre.retired_view().contains(k) {
                    assert(pre.processes_view().dom().contains(k));
                }
            }
            assert forall|k: u64| post.processes_view().dom().contains(k)
                implies !post.retired_view().contains(k) by {
                assert(post.processes_view() == pre.processes_view().remove(id));
                assert(!post.processes_view().dom().contains(id));
                assert(k != id);
                assert(pre.processes_view().dom().contains(k));
                assert(!pre.retired_view().contains(k));
            }
        }
        removed
    }
}

/// Process ids are strictly monotonic: of two consecutive issuances, the
/// second id is strictly greater, so no id is ever returned twice.
pub proof fn lemma_issued_ids_distinct(
    e0: Environment,
    e1: Environment,
    e2: Environment,
    r1: u64,
    r2: u64,
)
    requires
        Environment::fresh_id_step(e0, e1, r1),
        Environment::fresh_id_step(e1, e2, r2),
    ensures
        r1 < r2,
{
}

/// A freshly issued id is unassigned: it is neither registered nor retired,
/// so in particular no retired id is ever reassigned to a new process.
pub proof fn lemma_fresh_id_unassigned(e0: Environment, e1: Environment, r: u64)
    requires
        e0.wf(),
        Environment::fresh_id_step(e0, e1, r),
    ensures
        !e0.processes_view().dom().contains(r),
        !e0.retired_view().contains(r),
{
}

} // verus!
