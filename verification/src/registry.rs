//! The session registry: per-client subscription state and process bindings.
//!
//! An entry is created on subscribe, gains a binding on the first data
//! message (outside the shared policy), loses it on detected process exit,
//! and disappears on unsubscribe.  The registry enforces that ids are unique,
//! that at most one entry owns a given descriptor, and that tearing an entry
//! down releases its descriptor exactly once.

use vstd::prelude::*;
use crate::label::decimal_digits;
use crate::label::decimal_string;
use crate::msg::MsgKind;
use crate::msg::OutboundMsg;
use crate::msg::unsubscribe_notice;
use vstd::string::StringExecFns;

verus! {

/// The deployment policy: how clients map to processes.
#[derive(Clone, Copy, PartialEq, Eq, Structural, Debug)]
pub enum Policy {
    /// One process per client, spawned on the client's first data message.
    Exclusive,
    /// One process shared by every client.  The registry tracks
    /// subscriptions only; the shared process is owned by the runtime.
    Shared,
    /// One process per client, parameterized by the peer's identity label.
    Identity,
}

/// Whether a subscribed client currently has a bound process, and if so the
/// OS descriptor of that process's readable output stream.
#[derive(Clone, Copy, PartialEq, Eq, Structural, Debug)]
pub enum BindingState {
    NoProcess,
    WithProcess(i32),
}

/// One registry entry: a subscribed client, its binding state, and the
/// identity label captured at subscribe time (empty under policies that
/// carry none).
pub struct Entry {
    pub client_id: u16,
    pub binding: BindingState,
    pub label: String,
}

/// The mathematical image of one entry.
pub ghost struct EntryModel {
    pub client_id: u16,
    pub binding: BindingState,
    pub label: Seq<char>,
}

impl View for Entry {
    type V = EntryModel;

    open spec fn view(&self) -> EntryModel {
        EntryModel { client_id: self.client_id, binding: self.binding, label: self.label@ }
    }
}

/// A client together with the descriptor its process is bound to; returned
/// both for liveness polling and as a teardown order (kill the process, then
/// unregister the descriptor).
#[derive(Clone, Copy, PartialEq, Eq, Structural, Debug)]
pub struct BoundClient {
    pub client_id: u16,
    pub fd: i32,
}

/// Some entry carries `id`.
pub open spec fn has_id(s: Seq<EntryModel>, id: u16) -> bool {
    exists|i: int| 0 <= i < s.len() && s[i].client_id == id
}

/// The index of the entry carrying `id` (meaningful when ids are unique and
/// `has_id` holds).
pub open spec fn idx_of(s: Seq<EntryModel>, id: u16) -> int {
    choose|i: int| 0 <= i < s.len() && s[i].client_id == id
}

/// The entry carrying `id`.
pub open spec fn entry_of(s: Seq<EntryModel>, id: u16) -> EntryModel {
    s[idx_of(s, id)]
}

/// Some entry's binding owns descriptor `fd`.
pub open spec fn descriptor_bound(s: Seq<EntryModel>, fd: i32) -> bool {
    exists|i: int| 0 <= i < s.len() && s[i].binding == BindingState::WithProcess(fd)
}

/// No two entries carry the same client id.
pub open spec fn unique_ids(s: Seq<EntryModel>) -> bool {
    forall|i: int, j: int|
        0 <= i < j < s.len() ==> (#[trigger] s[i]).client_id != (#[trigger] s[j]).client_id
}

/// No two entries own the same descriptor.
pub open spec fn unique_descriptors(s: Seq<EntryModel>) -> bool {
    forall|i: int, j: int|
        0 <= i < j < s.len() && (#[trigger] s[i]).binding is WithProcess && (#[trigger] s[j]).binding is WithProcess
            ==> s[i].binding->0 != s[j].binding->0
}

/// Every entry is without a binding (invariant of the shared policy, whose
/// single process is owned outside the registry).
pub open spec fn all_unbound(s: Seq<EntryModel>) -> bool {
    forall|i: int| 0 <= i < s.len() ==> (#[trigger] s[i]).binding is NoProcess
}

/// The registry state after a (re-)subscription of `id`: any previous entry
/// for `id` is dropped and a fresh entry without a process is appended.
pub open spec fn spec_subscribe(s: Seq<EntryModel>, id: u16, label: Seq<char>) -> Seq<EntryModel> {
    let base = if has_id(s, id) {
        s.remove(idx_of(s, id))
    } else {
        s
    };
    base.push(EntryModel { client_id: id, binding: BindingState::NoProcess, label })
}

/// The registry state after an unsubscription of `id`: its entry is dropped;
/// an unknown id changes nothing.
pub open spec fn spec_unsubscribe(s: Seq<EntryModel>, id: u16) -> Seq<EntryModel> {
    if has_id(s, id) {
        s.remove(idx_of(s, id))
    } else {
        s
    }
}

/// The registry state after binding descriptor `fd` to `id`'s entry.
pub open spec fn spec_attach(s: Seq<EntryModel>, id: u16, fd: i32) -> Seq<EntryModel> {
    s.update(
        idx_of(s, id),
        EntryModel {
            client_id: id,
            binding: BindingState::WithProcess(fd),
            label: entry_of(s, id).label,
        },
    )
}

/// The registry state after `id`'s binding is cleared on a detected process
/// exit: the entry remains subscribed, without a process, label kept.
pub open spec fn spec_clear_binding(s: Seq<EntryModel>, id: u16) -> Seq<EntryModel> {
    s.update(
        idx_of(s, id),
        EntryModel {
            client_id: id,
            binding: BindingState::NoProcess,
            label: entry_of(s, id).label,
        },
    )
}

/// The clients that currently own a binding, with their descriptors, in
/// registry order.
pub open spec fn bound_clients(s: Seq<EntryModel>) -> Seq<BoundClient>
    decreases s.len(),
{
    if s.len() == 0 {
        Seq::empty()
    } else {
        let rest = bound_clients(s.drop_last());
        if s.last().binding is WithProcess {
            rest.push(BoundClient { client_id: s.last().client_id, fd: s.last().binding->0 })
        } else {
            rest
        }
    }
}

/// All subscribed client ids, in registry order.
pub open spec fn ids_of(s: Seq<EntryModel>) -> Seq<u16>
    decreases s.len(),
{
    if s.len() == 0 {
        Seq::empty()
    } else {
        ids_of(s.drop_last()).push(s.last().client_id)
    }
}

/// The session registry.
pub struct Registry {
    pub policy: Policy,
    pub entries: Vec<Entry>,
}

impl View for Registry {
    type V = Seq<EntryModel>;

    open spec fn view(&self) -> Seq<EntryModel> {
        Seq::new(self.entries@.len(), |i: int| self.entries@[i]@)
    }
}

/// With unique ids, the entry found at `i` is the entry `idx_of` names.
pub proof fn lemma_idx_of_unique(s: Seq<EntryModel>, id: u16, i: int)
    requires
        unique_ids(s),
        0 <= i < s.len(),
        s[i].client_id == id,
    ensures
        has_id(s, id),
        idx_of(s, id) == i,
{
    assert(has_id(s, id));
    let j = idx_of(s, id);
    assert(0 <= j < s.len() && s[j].client_id == id);
    if i < j {
        assert(s[i].client_id != s[j].client_id);
    } else if j < i {
        assert(s[j].client_id != s[i].client_id);
    }
}

/// Removing one entry keeps ids and descriptors unique, and keeps every
/// remaining entry what it was.
pub proof fn lemma_remove_keeps_wf(s: Seq<EntryModel>, i: int)
    requires
        unique_ids(s),
        unique_descriptors(s),
        0 <= i < s.len(),
    ensures
        unique_ids(s.remove(i)),
        unique_descriptors(s.remove(i)),
        all_unbound(s) ==> all_unbound(s.remove(i)),
        forall|j: int|
            0 <= j < s.remove(i).len() ==> #[trigger] s.remove(i)[j] == (
            if j < i {
                s[j]
            } else {
                s[j + 1]
            }),
{
    let t = s.remove(i);
    assert forall|j: int| 0 <= j < t.len() implies #[trigger] t[j] == (
    if j < i {
        s[j]
    } else {
        s[j + 1]
    }) by {
        assert(t[j] == if j < i {
            s[j]
        } else {
            s[j + 1]
        });
    }
}

impl Registry {
    /// Ids unique, descriptors unique, and under the shared policy no entry
    /// has a binding.
    pub open spec fn wf(self) -> bool {
        &&& unique_ids(self@)
        &&& unique_descriptors(self@)
        &&& self.policy == Policy::Shared ==> all_unbound(self@)
    }

    /// An empty registry for the given policy.
    pub fn new(policy: Policy) -> (r: Registry)
        ensures
            r.policy == policy,
            r@ == Seq::<EntryModel>::empty(),
            r.wf(),
    {
        let r = Registry { policy, entries: Vec::new() };
        proof {
            assert(r@ =~= Seq::<EntryModel>::empty());
        }
        r
    }

    /// The index of `id`'s entry, if it is subscribed.
    fn find_index(&self, id: u16) -> (r: Option<usize>)
        requires
            self.wf(),
        ensures
            match r {
                Some(i) => 0 <= i < self@.len() && self@[i as int].client_id == id && idx_of(
                    self@,
                    id,
                ) == i && has_id(self@, id),
                None => !has_id(self@, id),
            },
    {
        let mut i: usize = 0;
        while i < self.entries.len()
            invariant
                self.wf(),
                i <= self@.len(),
                forall|j: int| 0 <= j < i ==> (#[trigger] self@[j]).client_id != id,
            decreases self@.len() - i,
        {
            if self.entries[i].client_id == id {
                proof {
                    lemma_idx_of_unique(self@, id, i as int);
                }
                return Some(i);
            }
            i = i + 1;
        }
        proof {
            assert forall|k: int| 0 <= k < self@.len() implies (#[trigger] self@[k]).client_id != id
            by {}
        }
        None
    }

    /// Record a (fresh or renewed) subscription of `id` with identity
    /// `label`; a client already present is overwritten as if newly
    /// subscribed.
    pub fn subscribe(&mut self, id: u16, label: String)
        requires
            old(self).wf(),
        ensures
            final(self).wf(),
            final(self).policy == old(self).policy,
            final(self)@ == spec_subscribe(old(self)@, id, label@),
    {
        let ghost s0 = self@;
        let ghost base: Seq<EntryModel>;
        match self.find_index(id) {
            Some(i) => {
                proof {
                    lemma_remove_keeps_wf(s0, i as int);
                    base = s0.remove(i as int);
                }
                self.entries.remove(i);
                proof {
                    assert(self@ =~= base);
                    assert forall|j: int| 0 <= j < base.len() implies (#[trigger] base[j]).client_id
                        != id by {
                        if j < i as int {
                            assert(base[j] == s0[j]);
                            if s0[j].client_id == id {
                                lemma_idx_of_unique(s0, id, j);
                            }
                        } else {
                            assert(base[j] == s0[j + 1]);
                            if s0[j + 1].client_id == id {
                                lemma_idx_of_unique(s0, id, j + 1);
                            }
                        }
                    }
                }
            },
            None => {
                proof {
                    base = s0;
                    assert forall|j: int| 0 <= j < base.len() implies (#[trigger] base[j]).client_id
                        != id by {
                        if base[j].client_id == id {
                            assert(has_id(s0, id));
                        }
                    }
                }
            },
        }
        let entry = Entry { client_id: id, binding: BindingState::NoProcess, label };
        let ghost em = entry@;
        self.entries.push(entry);
        proof {
            assert(self@ =~= base.push(em));
            assert(self@ == spec_subscribe(s0, id, em.label));
            let t = base.push(em);
            assert forall|i: int, j: int| 0 <= i < j < t.len() implies (#[trigger] t[i]).client_id
                != (#[trigger] t[j]).client_id by {
                if j < t.len() - 1 {
                    assert(t[i] == base[i] && t[j] == base[j]);
                } else {
                    assert(t[i] == base[i] && t[j] == em);
                }
            }
            assert forall|i: int, j: int|
                0 <= i < j < t.len() && (#[trigger] t[i]).binding is WithProcess && (
                #[trigger] t[j]).binding is WithProcess implies t[i].binding->0 != t[j].binding->0
            by {
                if j < t.len() - 1 {
                    assert(t[i] == base[i] && t[j] == base[j]);
                } else {
                    assert(t[j] == em);
                }
            }
            if self.policy == Policy::Shared {
                assert forall|i: int| 0 <= i < t.len() implies (#[trigger] t[i]).binding
                    is NoProcess by {
                    if i < t.len() - 1 {
                        assert(t[i] == base[i]);
                    } else {
                        assert(t[i] == em);
                    }
                }
            }
        }
    }

    /// Remove `id`'s subscription.  An unknown id is a logged warning and a
    /// no-op; a bound entry yields the teardown the runtime must perform.
    pub fn unsubscribe(&mut self, id: u16) -> (r: UnsubscribeOutcome)
        requires
            old(self).wf(),
        ensures
            final(self).wf(),
            final(self).policy == old(self).policy,
            final(self)@ == spec_unsubscribe(old(self)@, id),
            r is UnknownClient <==> !has_id(old(self)@, id),
            !has_id(old(self)@, id) ==> final(self)@ == old(self)@,
            has_id(old(self)@, id) ==> match r {
                UnsubscribeOutcome::UnknownClient => false,
                UnsubscribeOutcome::Removed => entry_of(old(self)@, id).binding is NoProcess,
                UnsubscribeOutcome::RemovedBound(b) => b.client_id == id && entry_of(
                    old(self)@,
                    id,
                ).binding == BindingState::WithProcess(b.fd),
            },
    {
        let ghost s0 = self@;
        match self.find_index(id) {
            None => UnsubscribeOutcome::UnknownClient,
            Some(i) => {
                proof {
                    lemma_remove_keeps_wf(s0, i as int);
                }
                let entry = self.entries.remove(i);
                proof {
                    assert(entry@ == s0[i as int]);
                    assert(self@ =~= s0.remove(i as int));
                }
                match entry.binding {
                    BindingState::NoProcess => UnsubscribeOutcome::Removed,
                    BindingState::WithProcess(fd) => UnsubscribeOutcome::RemovedBound(
                        BoundClient { client_id: id, fd },
                    ),
                }
            },
        }
    }

    /// Clear the whole registry: every client gets one synthetic unsubscribe
    /// notification, every bound process exactly one teardown.
    pub fn unsubscribe_all(&mut self) -> (r: ClearOutcome)
        requires
            old(self).wf(),
        ensures
            final(self).wf(),
            final(self).policy == old(self).policy,
            final(self)@ == Seq::<EntryModel>::empty(),
            r.notices@.len() == old(self)@.len(),
            forall|i: int|
                0 <= i < r.notices@.len() ==> {
                    &&& (#[trigger] r.notices@[i]).kind == MsgKind::Unsubscribe
                    &&& r.notices@[i].client_id == old(self)@[i].client_id
                    &&& r.notices@[i].data@ == Seq::<u8>::empty()
                },
            r.teardowns@ == bound_clients(old(self)@),
    {
        let ghost s0 = self@;
        let mut notices: Vec<OutboundMsg> = Vec::new();
        let mut teardowns: Vec<BoundClient> = Vec::new();
        let mut i: usize = 0;
        while i < self.entries.len()
            invariant
                *self == *old(self),
                self@ == s0,
                i <= s0.len(),
                notices@.len() == i,
                forall|j: int|
                    0 <= j < i ==> {
                        &&& (#[trigger] notices@[j]).kind == MsgKind::Unsubscribe
                        &&& notices@[j].client_id == s0[j].client_id
                        &&& notices@[j].data@ == Seq::<u8>::empty()
                    },
                teardowns@ == bound_clients(s0.take(i as int)),
            decreases s0.len() - i,
        {
            let id = self.entries[i].client_id;
            notices.push(unsubscribe_notice(id));
            match self.entries[i].binding {
                BindingState::WithProcess(fd) => {
                    teardowns.push(BoundClient { client_id: id, fd });
                },
                BindingState::NoProcess => {},
            }
            proof {
                assert(s0.take(i as int + 1).drop_last() =~= s0.take(i as int));
                assert(s0.take(i as int + 1).last() == s0[i as int]);
            }
            i = i + 1;
        }
        proof {
            assert(s0.take(s0.len() as int) =~= s0);
        }
        self.entries.clear();
        proof {
            assert(self@ =~= Seq::<EntryModel>::empty());
        }
        ClearOutcome { notices, teardowns }
    }

    /// Decide what a data message for `id` means under the current policy:
    /// forward to the shared process, forward to the client's bound process,
    /// spawn one first, or drop the message for an unknown client.
    pub fn data_decision(&self, id: u16) -> (d: DataDecision)
        requires
            self.wf(),
        ensures
            self.policy == Policy::Shared ==> d is WriteShared,
            self.policy != Policy::Shared ==> match d {
                DataDecision::UnknownClient => !has_id(self@, id),
                DataDecision::WriteExisting(fd) => has_id(self@, id) && entry_of(self@, id).binding
                    == BindingState::WithProcess(fd),
                DataDecision::SpawnNeeded(sp) => has_id(self@, id) && entry_of(self@, id).binding
                    is NoProcess && spawn_env_ok(self.policy, entry_of(self@, id).label, id, sp),
                DataDecision::WriteShared => false,
            },
    {
        match self.policy {
            Policy::Shared => DataDecision::WriteShared,
            _ => {
                match self.find_index(id) {
                    None => DataDecision::UnknownClient,
                    Some(i) => {
                        match self.entries[i].binding {
                            BindingState::WithProcess(fd) => DataDecision::WriteExisting(fd),
                            BindingState::NoProcess => {
                                let mut env: Vec<(String, String)> = Vec::new();
                                if matches!(self.policy, Policy::Identity) {
                                    env.push(
                                        (String::from_str("CUSER"), self.entries[i].label.clone()),
                                    );
                                    env.push((String::from_str("CID"), decimal_string(id)));
                                }
                                DataDecision::SpawnNeeded(SpawnSpec { env })
                            },
                        }
                    },
                }
            },
        }
    }

    /// Some entry owns descriptor `fd`.
    fn descriptor_in_use(&self, fd: i32) -> (b: bool)
        ensures
            b == descriptor_bound(self@, fd),
    {
        let mut i: usize = 0;
        while i < self.entries.len()
            invariant
                i <= self@.len(),
                forall|j: int|
                    0 <= j < i ==> (#[trigger] self@[j]).binding != BindingState::WithProcess(fd),
            decreases self@.len() - i,
        {
            match self.entries[i].binding {
                BindingState::WithProcess(g) => {
                    if g == fd {
                        proof {
                            assert(self@[i as int] == self.entries@[i as int]@);
                            assert(descriptor_bound(self@, fd));
                        }
                        return true;
                    }
                },
                BindingState::NoProcess => {},
            }
            i = i + 1;
        }
        false
    }

    /// Bind descriptor `fd` (a freshly spawned process's output stream) to
    /// `id`'s entry.  Succeeds exactly when the policy binds per client, the
    /// id is subscribed without a process, and the descriptor is not already
    /// owned; otherwise nothing changes.
    pub fn attach(&mut self, id: u16, fd: i32) -> (ok: bool)
        requires
            old(self).wf(),
        ensures
            final(self).wf(),
            final(self).policy == old(self).policy,
            ok <==> {
                &&& old(self).policy != Policy::Shared
                &&& has_id(old(self)@, id)
                &&& entry_of(old(self)@, id).binding is NoProcess
                &&& !descriptor_bound(old(self)@, fd)
            },
            ok ==> final(self)@ == spec_attach(old(self)@, id, fd),
            !ok ==> final(self)@ == old(self)@,
    {
        let ghost s0 = self@;
        if matches!(self.policy, Policy::Shared) {
            return false;
        }
        if self.descriptor_in_use(fd) {
            return false;
        }
        match self.find_index(id) {
            None => false,
            Some(i) => {
                match self.entries[i].binding {
                    BindingState::WithProcess(_) => false,
                    BindingState::NoProcess => {
                        let entry = self.entries.remove(i);
                        let bound = Entry {
                            client_id: entry.client_id,
                            binding: BindingState::WithProcess(fd),
                            label: entry.label,
                        };
                        self.entries.insert(i, bound);
                        proof {
                            assert(self@ =~= spec_attach(s0, id, fd));
                            let t = self@;
                            assert forall|p: int, q: int| 0 <= p < q < t.len() implies (
                            #[trigger] t[p]).client_id != (#[trigger] t[q]).client_id by {
                                assert(t[p] == if p == i as int {
                                    t[i as int]
                                } else {
                                    s0[p]
                                });
                                assert(t[q] == if q == i as int {
                                    t[i as int]
                                } else {
                                    s0[q]
                                });
                            }
                            assert forall|p: int, q: int|
                                0 <= p < q < t.len() && (#[trigger] t[p]).binding is WithProcess
                                    && (#[trigger] t[q]).binding is WithProcess implies t[p].binding
                                ->0 != t[q].binding->0 by {
                                if p != i as int && q != i as int {
                                    assert(t[p] == s0[p] && t[q] == s0[q]);
                                } else if p == i as int {
                                    assert(t[q] == s0[q]);
                                    assert(!(s0[q].binding == BindingState::WithProcess(fd)));
                                } else {
                                    assert(t[p] == s0[p]);
                                    assert(!(s0[p].binding == BindingState::WithProcess(fd)));
                                }
                            }
                        }
                        true
                    },
                }
            },
        }
    }

    /// Drop `id`'s binding after its process was seen to exit: the entry
    /// stays subscribed, back in the no-process state, and the returned
    /// descriptor must be unregistered.
    pub fn clear_binding(&mut self, id: u16) -> (r: Option<i32>)
        requires
            old(self).wf(),
        ensures
            final(self).wf(),
            final(self).policy == old(self).policy,
            r is Some <==> has_id(old(self)@, id) && entry_of(old(self)@, id).binding
                is WithProcess,
            r matches Some(fd) ==> entry_of(old(self)@, id).binding == BindingState::WithProcess(fd)
                && final(self)@ == spec_clear_binding(old(self)@, id),
            r is None ==> final(self)@ == old(self)@,
    {
        let ghost s0 = self@;
        match self.find_index(id) {
            None => None,
            Some(i) => {
                match self.entries[i].binding {
                    BindingState::NoProcess => None,
                    BindingState::WithProcess(fd) => {
                        let entry = self.entries.remove(i);
                        let cleared = Entry {
                            client_id: entry.client_id,
                            binding: BindingState::NoProcess,
                            label: entry.label,
                        };
                        self.entries.insert(i, cleared);
                        proof {
                            assert(self@ =~= spec_clear_binding(s0, id));
                            let t = self@;
                            assert forall|p: int, q: int| 0 <= p < q < t.len() implies (
                            #[trigger] t[p]).client_id != (#[trigger] t[q]).client_id by {
                                assert(p == i as int || t[p] == s0[p]);
                                assert(q == i as int || t[q] == s0[q]);
                            }
                            assert forall|p: int, q: int|
                                0 <= p < q < t.len() && (#[trigger] t[p]).binding is WithProcess
                                    && (#[trigger] t[q]).binding is WithProcess implies t[p].binding
                                ->0 != t[q].binding->0 by {
                                assert(t[p] == s0[p] && t[q] == s0[q]);
                            }
                        }
                        Some(fd)
                    },
                }
            },
        }
    }

    /// The clients that currently own a binding, with their descriptors, for
    /// liveness polling.
    pub fn live_bindings(&self) -> (r: Vec<BoundClient>)
        ensures
            r@ == bound_clients(self@),
    {
        let ghost s0 = self@;
        let mut r: Vec<BoundClient> = Vec::new();
        let mut i: usize = 0;
        while i < self.entries.len()
            invariant
                i <= s0.len(),
                s0 == self@,
                r@ == bound_clients(s0.take(i as int)),
            decreases s0.len() - i,
        {
            match self.entries[i].binding {
                BindingState::WithProcess(fd) => {
                    r.push(BoundClient { client_id: self.entries[i].client_id, fd });
                },
                BindingState::NoProcess => {},
            }
            proof {
                assert(s0.take(i as int + 1).drop_last() =~= s0.take(i as int));
                assert(s0.take(i as int + 1).last() == s0[i as int]);
            }
            i = i + 1;
        }
        proof {
            assert(s0.take(s0.len() as int) =~= s0);
        }
        r
    }

    /// The subscribed clients whose binding owns descriptor `fd` (at most
    /// one when the registry is well formed).
    pub fn owners_of(&self, fd: i32) -> (r: Vec<u16>)
        ensures
            r@ == owner_ids(self@, fd),
    {
        let ghost s0 = self@;
        let mut r: Vec<u16> = Vec::new();
        let mut i: usize = 0;
        while i < self.entries.len()
            invariant
                i <= s0.len(),
                s0 == self@,
                r@ == owner_ids(s0.take(i as int), fd),
            decreases s0.len() - i,
        {
            match self.entries[i].binding {
                BindingState::WithProcess(g) => {
                    if g == fd {
                        r.push(self.entries[i].client_id);
                    }
                },
                BindingState::NoProcess => {},
            }
            proof {
                assert(s0.take(i as int + 1).drop_last() =~= s0.take(i as int));
                assert(s0.take(i as int + 1).last() == s0[i as int]);
            }
            i = i + 1;
        }
        proof {
            assert(s0.take(s0.len() as int) =~= s0);
        }
        r
    }

    /// All subscribed client ids, in registry order: the fan-out targets of
    /// the shared policy.
    pub fn subscribed_ids(&self) -> (r: Vec<u16>)
        ensures
            r@ == ids_of(self@),
    {
        let ghost s0 = self@;
        let mut r: Vec<u16> = Vec::new();
        let mut i: usize = 0;
        while i < self.entries.len()
            invariant
                i <= s0.len(),
                s0 == self@,
                r@ == ids_of(s0.take(i as int)),
            decreases s0.len() - i,
        {
            r.push(self.entries[i].client_id);
            proof {
                assert(s0.take(i as int + 1).drop_last() =~= s0.take(i as int));
                assert(s0.take(i as int + 1).last() == s0[i as int]);
            }
            i = i + 1;
        }
        proof {
            assert(s0.take(s0.len() as int) =~= s0);
        }
        r
    }

    /// How many clients are subscribed.
    pub fn client_count(&self) -> (n: usize)
        ensures
            n == self@.len(),
    {
        self.entries.len()
    }

    /// Whether `id` is currently subscribed.
    pub fn is_subscribed(&self, id: u16) -> (b: bool)
        requires
            self.wf(),
        ensures
            b == has_id(self@, id),
    {
        match self.find_index(id) {
            Some(_) => true,
            None => false,
        }
    }
}

/// Outcome of an unsubscription.
pub enum UnsubscribeOutcome {
    /// The id was not subscribed: a logged warning, nothing changed.
    UnknownClient,
    /// The entry was removed; it had no bound process.
    Removed,
    /// The entry was removed and its process must be torn down: kill it,
    /// then unregister the descriptor.
    RemovedBound(BoundClient),
}

/// Everything produced by clearing the whole registry: one synthetic
/// unsubscribe notification per client, and one teardown per bound process.
pub struct ClearOutcome {
    pub notices: Vec<OutboundMsg>,
    pub teardowns: Vec<BoundClient>,
}

/// The environment a freshly spawned process is given; the command itself
/// comes from startup configuration held by the runtime.
pub struct SpawnSpec {
    pub env: Vec<(String, String)>,
}

/// The environment owed to a spawn under `policy` for client `id` carrying
/// `label`: the identity policy passes the peer label as `CUSER` and the
/// decimal client id as `CID`; other policies add nothing.
pub open spec fn spawn_env_ok(policy: Policy, label: Seq<char>, id: u16, sp: SpawnSpec) -> bool {
    if policy == Policy::Identity {
        &&& sp.env@.len() == 2
        &&& sp.env@[0].0@ == "CUSER"@
        &&& sp.env@[0].1@ == label
        &&& sp.env@[1].0@ == "CID"@
        &&& sp.env@[1].1@ == decimal_digits(id as nat)
    } else {
        sp.env@.len() == 0
    }
}

/// What a data message for `id` requires of the runtime.
pub enum DataDecision {
    /// The id is not subscribed: a logged warning, the message is dropped.
    UnknownClient,
    /// Forward the payload to the input of the process bound to this
    /// descriptor.
    WriteExisting(i32),
    /// Spawn a process with this environment, bind it, then forward the
    /// payload to its input.
    SpawnNeeded(SpawnSpec),
    /// Forward the payload to the shared process's input.
    WriteShared,
}

/// The subscribed clients whose binding owns descriptor `fd`, in registry
/// order.
pub open spec fn owner_ids(s: Seq<EntryModel>, fd: i32) -> Seq<u16>
    decreases s.len(),
{
    if s.len() == 0 {
        Seq::empty()
    } else {
        let rest = owner_ids(s.drop_last(), fd);
        if s.last().binding == BindingState::WithProcess(fd) {
            rest.push(s.last().client_id)
        } else {
            rest
        }
    }
}

} // verus!
