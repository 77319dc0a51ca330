//! The event dispatcher: the state machine behind one reactor step.
//!
//! The runtime hands each inbound message to [`handle_message`], then polls
//! the live bindings it is told about and reaps the exited ones through
//! [`reap_exited`], then resolves a readiness notification's fan-out targets
//! through [`fanout_targets`].  Everything the runtime must do outside the
//! registry — spawn, kill, write, read, (un)register descriptors, log — is
//! returned as data.

use vstd::prelude::*;
use crate::label::decode_label;
use crate::label::label_of;
use crate::msg::InboundMsg;
use crate::msg::MsgKind;
use crate::registry::BindingState;
use crate::registry::ClearOutcome;
use crate::registry::DataDecision;
use crate::registry::EntryModel;
use crate::registry::Policy;
use crate::registry::Registry;
use crate::registry::UnsubscribeOutcome;
use crate::registry::bound_clients;
use crate::registry::entry_of;
use crate::registry::has_id;
use crate::registry::ids_of;
use crate::registry::owner_ids;
use crate::registry::spawn_env_ok;
use crate::registry::spec_clear_binding;
use crate::registry::spec_subscribe;
use crate::registry::spec_unsubscribe;

verus! {

/// A failure that unwinds the step loop (the service is restarted by its
/// supervisor rather than recovering locally).
#[derive(Clone, Copy, PartialEq, Eq, Structural, Debug)]
pub enum DispatchError {
    /// A subscribe payload did not decode to an identity label.
    MalformedLabel,
}

/// What the runtime must do after one inbound message was interpreted.
pub enum MsgEffect {
    /// A subscription was recorded; nothing to perform.
    Subscribed,
    /// An unsubscription was handled; perform the teardown it names, if any.
    Unsubscribed(UnsubscribeOutcome),
    /// The registry was cleared; send every notice upstream and perform
    /// every teardown.
    ClearedAll(ClearOutcome),
    /// Route a data payload as decided.
    Data(DataDecision),
    /// An unrecognized message kind: log it, nothing else.
    Ignored,
}

/// The identity label a subscribe message records: empty under the exclusive
/// policy, the decoded payload label otherwise.
pub open spec fn subscribe_label(policy: Policy, data: Seq<u8>) -> Seq<char> {
    if policy == Policy::Exclusive {
        Seq::empty()
    } else {
        label_of(data)->0
    }
}

/// Interpret one inbound transport message against the registry and say what
/// the runtime must perform.  Only a malformed identity label is an error,
/// and it leaves the registry untouched.
pub fn handle_message(reg: &mut Registry, m: &InboundMsg) -> (r: Result<
    MsgEffect,
    DispatchError,
>)
    requires
        old(reg).wf(),
    ensures
        final(reg).wf(),
        final(reg).policy == old(reg).policy,
        match m.kind {
            MsgKind::Subscribe => match r {
                Ok(eff) => {
                    &&& eff is Subscribed
                    &&& (old(reg).policy != Policy::Exclusive ==> label_of(m.data@) is Some)
                    &&& final(reg)@ == spec_subscribe(
                        old(reg)@,
                        m.client_id,
                        subscribe_label(old(reg).policy, m.data@),
                    )
                },
                Err(e) => {
                    &&& e is MalformedLabel
                    &&& old(reg).policy != Policy::Exclusive
                    &&& label_of(m.data@) is None
                    &&& final(reg)@ == old(reg)@
                },
            },
            MsgKind::Unsubscribe => {
                &&& r matches Ok(MsgEffect::Unsubscribed(o)) && {
                    &&& final(reg)@ == spec_unsubscribe(old(reg)@, m.client_id)
                    &&& (o is UnknownClient <==> !has_id(old(reg)@, m.client_id))
                    &&& (o is UnknownClient ==> final(reg)@ == old(reg)@)
                    &&& (has_id(old(reg)@, m.client_id) ==> match o {
                        UnsubscribeOutcome::UnknownClient => false,
                        UnsubscribeOutcome::Removed => entry_of(old(reg)@, m.client_id).binding
                            is NoProcess,
                        UnsubscribeOutcome::RemovedBound(b) => b.client_id == m.client_id
                            && entry_of(old(reg)@, m.client_id).binding
                            == BindingState::WithProcess(b.fd),
                    })
                }
            },
            MsgKind::UnsubscribeAll => {
                &&& r matches Ok(MsgEffect::ClearedAll(c)) && {
                    &&& final(reg)@ == Seq::<EntryModel>::empty()
                    &&& c.teardowns@ == bound_clients(old(reg)@)
                    &&& c.notices@.len() == old(reg)@.len()
                    &&& forall|i: int|
                        0 <= i < c.notices@.len() ==> {
                            &&& (#[trigger] c.notices@[i]).kind == MsgKind::Unsubscribe
                            &&& c.notices@[i].client_id == old(reg)@[i].client_id
                            &&& c.notices@[i].data@ == Seq::<u8>::empty()
                        }
                }
            },
            MsgKind::Data => {
                &&& final(reg)@ == old(reg)@
                &&& r matches Ok(MsgEffect::Data(d)) && {
                    &&& (old(reg).policy == Policy::Shared ==> d is WriteShared)
                    &&& (old(reg).policy != Policy::Shared ==> match d {
                        DataDecision::UnknownClient => !has_id(old(reg)@, m.client_id),
                        DataDecision::WriteExisting(fd) => has_id(old(reg)@, m.client_id)
                            && entry_of(old(reg)@, m.client_id).binding
                            == BindingState::WithProcess(fd),
                        DataDecision::SpawnNeeded(sp) => has_id(old(reg)@, m.client_id)
                            && entry_of(old(reg)@, m.client_id).binding is NoProcess
                            && spawn_env_ok(
                            old(reg).policy,
                            entry_of(old(reg)@, m.client_id).label,
                            m.client_id,
                            sp,
                        ),
                        DataDecision::WriteShared => false,
                    })
                }
            },
            MsgKind::Other => {
                &&& r matches Ok(MsgEffect::Ignored)
                &&& final(reg)@ == old(reg)@
            },
        },
{
    match m.kind {
        MsgKind::Subscribe => {
            if matches!(reg.policy, Policy::Exclusive) {
                reg.subscribe(m.client_id, String::new());
                Ok(MsgEffect::Subscribed)
            } else {
                match decode_label(&m.data) {
                    Some(label) => {
                        reg.subscribe(m.client_id, label);
                        Ok(MsgEffect::Subscribed)
                    },
                    None => Err(DispatchError::MalformedLabel),
                }
            }
        },
        MsgKind::Unsubscribe => Ok(MsgEffect::Unsubscribed(reg.unsubscribe(m.client_id))),
        MsgKind::UnsubscribeAll => Ok(MsgEffect::ClearedAll(reg.unsubscribe_all())),
        MsgKind::Data => Ok(MsgEffect::Data(reg.data_decision(m.client_id))),
        MsgKind::Other => Ok(MsgEffect::Ignored),
    }
}

/// One id's binding cleared, if it is subscribed and bound; else no change.
pub open spec fn spec_clear_one(s: Seq<EntryModel>, id: u16) -> Seq<EntryModel> {
    if has_id(s, id) && entry_of(s, id).binding is WithProcess {
        spec_clear_binding(s, id)
    } else {
        s
    }
}

/// The registry after the bindings of every id in `ids` were cleared, in
/// order.
pub open spec fn spec_reap(s: Seq<EntryModel>, ids: Seq<u16>) -> Seq<EntryModel>
    decreases ids.len(),
{
    if ids.len() == 0 {
        s
    } else {
        spec_clear_one(spec_reap(s, ids.drop_last()), ids.last())
    }
}

/// The descriptors released while clearing the bindings of `ids`, in order:
/// one per id that was still bound when its turn came.
pub open spec fn reaped_fds(s: Seq<EntryModel>, ids: Seq<u16>) -> Seq<i32>
    decreases ids.len(),
{
    if ids.len() == 0 {
        Seq::empty()
    } else {
        let prev = spec_reap(s, ids.drop_last());
        let rest = reaped_fds(s, ids.drop_last());
        if has_id(prev, ids.last()) && entry_of(prev, ids.last()).binding is WithProcess {
            rest.push(entry_of(prev, ids.last()).binding->0)
        } else {
            rest
        }
    }
}

/// Reap the clients whose processes were observed to have exited: each one's
/// binding is cleared (the entry stays subscribed) and its descriptor is
/// returned, to be unregistered exactly once.
pub fn reap_exited(reg: &mut Registry, exited: &Vec<u16>) -> (fds: Vec<i32>)
    requires
        old(reg).wf(),
    ensures
        final(reg).wf(),
        final(reg).policy == old(reg).policy,
        final(reg)@ == spec_reap(old(reg)@, exited@),
        fds@ == reaped_fds(old(reg)@, exited@),
{
    let ghost s0 = reg@;
    let mut fds: Vec<i32> = Vec::new();
    let mut i: usize = 0;
    while i < exited.len()
        invariant
            reg.wf(),
            reg.policy == old(reg).policy,
            i <= exited@.len(),
            reg@ == spec_reap(s0, exited@.take(i as int)),
            fds@ == reaped_fds(s0, exited@.take(i as int)),
        decreases exited@.len() - i,
    {
        let id = exited[i];
        match reg.clear_binding(id) {
            Some(fd) => {
                fds.push(fd);
            },
            None => {},
        }
        proof {
            assert(exited@.take(i as int + 1).drop_last() =~= exited@.take(i as int));
            assert(exited@.take(i as int + 1).last() == exited@[i as int]);
        }
        i = i + 1;
    }
    proof {
        assert(exited@.take(exited@.len() as int) =~= exited@);
    }
    fds
}

/// The clients an output burst read from descriptor `fd` is forwarded to:
/// every subscribed client under the shared policy, the descriptor's owner
/// otherwise.
pub fn fanout_targets(reg: &Registry, fd: i32) -> (ids: Vec<u16>)
    ensures
        reg.policy == Policy::Shared ==> ids@ == ids_of(reg@),
        reg.policy != Policy::Shared ==> ids@ == owner_ids(reg@, fd),
{
    if matches!(reg.policy, Policy::Shared) {
        reg.subscribed_ids()
    } else {
        reg.owners_of(fd)
    }
}

} // verus!
