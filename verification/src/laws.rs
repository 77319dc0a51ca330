//! Global guarantees of the lifecycle manager, stated and proved over the
//! registry model.

use vstd::prelude::*;
use crate::registry::BindingState;
use crate::registry::BoundClient;
use crate::registry::EntryModel;
use crate::registry::bound_clients;
use crate::registry::descriptor_bound;
use crate::registry::entry_of;
use crate::registry::has_id;
use crate::registry::ids_of;
use crate::registry::idx_of;
use crate::registry::lemma_idx_of_unique;
use crate::registry::lemma_remove_keeps_wf;
use crate::registry::spec_attach;
use crate::registry::spec_clear_binding;
use crate::registry::spec_subscribe;
use crate::registry::spec_unsubscribe;
use crate::registry::unique_descriptors;
use crate::registry::unique_ids;

verus! {

/// A subscription keeps the registry well formed, records exactly one fresh
/// no-process entry for the id, and owns no descriptor it did not own
/// before.
pub proof fn lemma_subscribe_fresh(s: Seq<EntryModel>, id: u16, label: Seq<char>)
    requires
        unique_ids(s),
        unique_descriptors(s),
    ensures
        ({
            let t = spec_subscribe(s, id, label);
            &&& unique_ids(t)
            &&& unique_descriptors(t)
            &&& has_id(t, id)
            &&& entry_of(t, id) == (EntryModel {
                client_id: id,
                binding: BindingState::NoProcess,
                label,
            })
            &&& forall|g: i32| #[trigger] descriptor_bound(t, g) ==> descriptor_bound(s, g)
        }),
{
    let t = spec_subscribe(s, id, label);
    let base = if has_id(s, id) {
        s.remove(idx_of(s, id))
    } else {
        s
    };
    if has_id(s, id) {
        let i = idx_of(s, id);
        assert(0 <= i < s.len() && s[i].client_id == id);
        lemma_remove_keeps_wf(s, i);
        assert forall|j: int| 0 <= j < base.len() implies (#[trigger] base[j]).client_id != id by {
            assert(base[j] == if j < i {
                s[j]
            } else {
                s[j + 1]
            });
            if j < i {
                if s[j].client_id == id {
                    lemma_idx_of_unique(s, id, j);
                }
            } else {
                if s[j + 1].client_id == id {
                    lemma_idx_of_unique(s, id, j + 1);
                }
            }
        }
        assert forall|j: int| 0 <= j < base.len() implies exists|k: int|
            0 <= k < s.len() && #[trigger] base[j] == s[k] by {
            assert(base[j] == if j < i {
                s[j]
            } else {
                s[j + 1]
            });
        }
    } else {
        assert forall|j: int| 0 <= j < base.len() implies (#[trigger] base[j]).client_id != id by {
            if base[j].client_id == id {
                assert(has_id(s, id));
            }
        }
        assert forall|j: int| 0 <= j < base.len() implies exists|k: int|
            0 <= k < s.len() && #[trigger] base[j] == s[k] by {
            assert(base[j] == s[j]);
        }
    }
    let e = EntryModel { client_id: id, binding: BindingState::NoProcess, label };
    assert(t == base.push(e));
    assert forall|p: int, q: int| 0 <= p < q < t.len() implies (#[trigger] t[p]).client_id != (
    #[trigger] t[q]).client_id by {
        if q < t.len() - 1 {
            assert(t[p] == base[p] && t[q] == base[q]);
        } else {
            assert(t[p] == base[p] && t[q] == e);
        }
    }
    assert forall|p: int, q: int|
        0 <= p < q < t.len() && (#[trigger] t[p]).binding is WithProcess && (
        #[trigger] t[q]).binding is WithProcess implies t[p].binding->0 != t[q].binding->0 by {
        if q < t.len() - 1 {
            assert(t[p] == base[p] && t[q] == base[q]);
        } else {
            assert(t[q] == e);
        }
    }
    lemma_idx_of_unique(t, id, t.len() - 1);
    assert forall|g: i32| #[trigger] descriptor_bound(t, g) implies descriptor_bound(s, g) by {
        let j = choose|j: int| 0 <= j < t.len() && t[j].binding == BindingState::WithProcess(g);
        assert(j < t.len() - 1);
        assert(t[j] == base[j]);
        let k = choose|k: int| 0 <= k < s.len() && base[j] == s[k];
        assert(s[k].binding == BindingState::WithProcess(g));
    }
}

/// Binding a not-yet-owned descriptor to a subscribed, process-less entry
/// marks exactly that entry as bound and keeps the registry well formed;
/// the set of subscribed clients does not change.
pub proof fn lemma_attach_effect(s: Seq<EntryModel>, id: u16, fd: i32)
    requires
        unique_ids(s),
        unique_descriptors(s),
        has_id(s, id),
        entry_of(s, id).binding is NoProcess,
        !descriptor_bound(s, fd),
    ensures
        ({
            let t = spec_attach(s, id, fd);
            &&& unique_ids(t)
            &&& unique_descriptors(t)
            &&& has_id(t, id)
            &&& entry_of(t, id).binding == BindingState::WithProcess(fd)
            &&& entry_of(t, id).label == entry_of(s, id).label
            &&& t.len() == s.len()
            &&& forall|x: u16| #[trigger] has_id(t, x) <==> has_id(s, x)
        }),
{
    let i = idx_of(s, id);
    assert(0 <= i < s.len() && s[i].client_id == id);
    let t = spec_attach(s, id, fd);
    assert forall|p: int| 0 <= p < t.len() implies (#[trigger] t[p]).client_id == s[p].client_id
    by {
        if p != i {
            assert(t[p] == s[p]);
        }
    }
    assert forall|p: int, q: int| 0 <= p < q < t.len() implies (#[trigger] t[p]).client_id != (
    #[trigger] t[q]).client_id by {
        assert(s[p].client_id != s[q].client_id);
    }
    assert forall|p: int, q: int|
        0 <= p < q < t.len() && (#[trigger] t[p]).binding is WithProcess && (
        #[trigger] t[q]).binding is WithProcess implies t[p].binding->0 != t[q].binding->0 by {
        if p != i && q != i {
            assert(t[p] == s[p] && t[q] == s[q]);
        } else if p == i {
            assert(t[q] == s[q]);
            if s[q].binding == BindingState::WithProcess(fd) {
                assert(descriptor_bound(s, fd));
            }
        } else {
            assert(t[p] == s[p]);
            if s[p].binding == BindingState::WithProcess(fd) {
                assert(descriptor_bound(s, fd));
            }
        }
    }
    lemma_idx_of_unique(t, id, i);
    assert forall|x: u16| #[trigger] has_id(t, x) <==> has_id(s, x) by {
        if has_id(t, x) {
            let k = choose|k: int| 0 <= k < t.len() && t[k].client_id == x;
            assert(s[k].client_id == x);
        }
        if has_id(s, x) {
            let k = choose|k: int| 0 <= k < s.len() && s[k].client_id == x;
            assert(t[k].client_id == x);
        }
    }
}

/// Unsubscribing a subscribed id removes exactly its entry: the id is gone,
/// every other client is untouched, and the registry stays well formed.
pub proof fn lemma_unsubscribe_removes(s: Seq<EntryModel>, id: u16)
    requires
        unique_ids(s),
        unique_descriptors(s),
        has_id(s, id),
    ensures
        ({
            let t = spec_unsubscribe(s, id);
            &&& unique_ids(t)
            &&& unique_descriptors(t)
            &&& !has_id(t, id)
            &&& t.len() == s.len() - 1
            &&& forall|x: u16| x != id ==> (#[trigger] has_id(t, x) <==> has_id(s, x))
        }),
{
    let i = idx_of(s, id);
    assert(0 <= i < s.len() && s[i].client_id == id);
    let t = spec_unsubscribe(s, id);
    lemma_remove_keeps_wf(s, i);
    assert forall|j: int| 0 <= j < t.len() implies (#[trigger] t[j]).client_id != id by {
        assert(t[j] == if j < i {
            s[j]
        } else {
            s[j + 1]
        });
        if j < i {
            if s[j].client_id == id {
                lemma_idx_of_unique(s, id, j);
            }
        } else {
            if s[j + 1].client_id == id {
                lemma_idx_of_unique(s, id, j + 1);
            }
        }
    }
    if has_id(t, id) {
        let k = choose|k: int| 0 <= k < t.len() && t[k].client_id == id;
        assert(false);
    }
    assert forall|x: u16| x != id implies (#[trigger] has_id(t, x) <==> has_id(s, x)) by {
        if has_id(t, x) {
            let k = choose|k: int| 0 <= k < t.len() && t[k].client_id == x;
            assert(t[k] == if k < i {
                s[k]
            } else {
                s[k + 1]
            });
            assert(has_id(s, x));
        }
        if has_id(s, x) {
            let k = choose|k: int| 0 <= k < s.len() && s[k].client_id == x;
            assert(k != i);
            if k < i {
                assert(t[k] == s[k]);
            } else {
                assert(t[k - 1] == s[k]);
            }
            assert(has_id(t, x));
        }
    }
}

/// One subscribe, a first data message, the bind of the spawned process,
/// and one unsubscribe, all on a single client id: the first data message
/// finds the entry without a process (exactly one spawn is ordered), after
/// the bind the entry owns the descriptor (a further data message orders no
/// spawn), and the unsubscribe finds exactly that one bound descriptor to
/// tear down — one kill, then one unregister — after which the client is
/// gone.
pub proof fn lemma_single_lifecycle(s: Seq<EntryModel>, id: u16, label: Seq<char>, fd: i32)
    requires
        unique_ids(s),
        unique_descriptors(s),
        !descriptor_bound(s, fd),
    ensures
        ({
            let s1 = spec_subscribe(s, id, label);
            let s2 = spec_attach(s1, id, fd);
            let s3 = spec_unsubscribe(s2, id);
            &&& has_id(s1, id) && entry_of(s1, id).binding is NoProcess
            &&& has_id(s2, id) && entry_of(s2, id).binding == BindingState::WithProcess(fd)
            &&& !has_id(s3, id)
        }),
{
    let s1 = spec_subscribe(s, id, label);
    lemma_subscribe_fresh(s, id, label);
    if descriptor_bound(s1, fd) {
        assert(descriptor_bound(s, fd));
    }
    lemma_attach_effect(s1, id, fd);
    let s2 = spec_attach(s1, id, fd);
    lemma_unsubscribe_removes(s2, id);
}

proof fn lemma_bound_from_entries(s: Seq<EntryModel>)
    ensures
        forall|p: int|
            0 <= p < bound_clients(s).len() ==> exists|i: int|
                0 <= i < s.len() && s[i].client_id == (#[trigger] bound_clients(
                    s,
                )[p]).client_id && s[i].binding == BindingState::WithProcess(bound_clients(s)[p].fd),
    decreases s.len(),
{
    if s.len() == 0 {
    } else {
        let d = s.drop_last();
        lemma_bound_from_entries(d);
        let t = bound_clients(s);
        let r = bound_clients(d);
        assert forall|p: int| 0 <= p < t.len() implies exists|i: int|
            0 <= i < s.len() && s[i].client_id == (#[trigger] t[p]).client_id && s[i].binding
                == BindingState::WithProcess(t[p].fd) by {
            if p < r.len() {
                assert(t[p] == r[p]);
                let i = choose|i: int|
                    0 <= i < d.len() && d[i].client_id == r[p].client_id && d[i].binding
                        == BindingState::WithProcess(r[p].fd);
                assert(s[i] == d[i]);
            } else {
                assert(s.last().binding is WithProcess);
                assert(t[p] == BoundClient {
                    client_id: s.last().client_id,
                    fd: s.last().binding->0,
                });
                assert(s[s.len() - 1].client_id == t[p].client_id && s[s.len() - 1].binding
                    == BindingState::WithProcess(t[p].fd));
            }
        }
    }
}

/// Clearing the whole registry releases every previously registered
/// descriptor exactly once: each bound entry appears among the teardowns,
/// and no two teardowns name the same descriptor.
pub proof fn lemma_clear_releases_each_descriptor_once(s: Seq<EntryModel>)
    requires
        unique_descriptors(s),
    ensures
        forall|i: int|
            0 <= i < s.len() && (#[trigger] s[i]).binding is WithProcess ==> bound_clients(
                s,
            ).contains(BoundClient { client_id: s[i].client_id, fd: s[i].binding->0 }),
        forall|p: int, q: int|
            0 <= p < q < bound_clients(s).len() ==> (#[trigger] bound_clients(s)[p]).fd != (
            #[trigger] bound_clients(s)[q]).fd,
    decreases s.len(),
{
    if s.len() == 0 {
    } else {
        let d = s.drop_last();
        assert forall|i: int, j: int|
            0 <= i < j < d.len() && (#[trigger] d[i]).binding is WithProcess && (
            #[trigger] d[j]).binding is WithProcess implies d[i].binding->0 != d[j].binding->0 by {
            assert(d[i] == s[i] && d[j] == s[j]);
        }
        lemma_clear_releases_each_descriptor_once(d);
        lemma_bound_from_entries(d);
        let t = bound_clients(s);
        let r = bound_clients(d);
        assert forall|i: int|
            0 <= i < s.len() && (#[trigger] s[i]).binding is WithProcess implies t.contains(
            BoundClient { client_id: s[i].client_id, fd: s[i].binding->0 }) by {
            let b = BoundClient { client_id: s[i].client_id, fd: s[i].binding->0 };
            if i < s.len() - 1 {
                assert(d[i] == s[i]);
                assert(r.contains(b));
                let p = choose|p: int| 0 <= p < r.len() && r[p] == b;
                assert(t[p] == b);
            } else {
                assert(t.last() == b);
            }
        }
        assert forall|p: int, q: int| 0 <= p < q < t.len() implies (#[trigger] t[p]).fd != (
        #[trigger] t[q]).fd by {
            if q < r.len() {
                assert(t[p] == r[p] && t[q] == r[q]);
            } else {
                assert(s.last().binding is WithProcess);
                assert(t[q].fd == s.last().binding->0);
                assert(t[p] == r[p]);
                let i = choose|i: int|
                    0 <= i < d.len() && d[i].client_id == r[p].client_id && d[i].binding
                        == BindingState::WithProcess(r[p].fd);
                assert(s[i] == d[i]);
                assert(s[i].binding->0 != s[s.len() - 1].binding->0);
            }
        }
    }
}

/// Unsubscribing an id that is not subscribed changes nothing: the logged
/// warning is the only effect.
pub proof fn lemma_unknown_unsubscribe_is_noop(s: Seq<EntryModel>, id: u16)
    requires
        !has_id(s, id),
    ensures
        spec_unsubscribe(s, id) == s,
{
}

proof fn lemma_ids_elementwise(s: Seq<EntryModel>)
    ensures
        ids_of(s).len() == s.len(),
        forall|i: int| 0 <= i < s.len() ==> ids_of(s)[i] == (#[trigger] s[i]).client_id,
    decreases s.len(),
{
    if s.len() == 0 {
    } else {
        let d = s.drop_last();
        lemma_ids_elementwise(d);
        assert forall|i: int| 0 <= i < s.len() implies ids_of(s)[i] == (
        #[trigger] s[i]).client_id by {
            if i < s.len() - 1 {
                assert(ids_of(s)[i] == ids_of(d)[i]);
                assert(d[i] == s[i]);
            }
        }
    }
}

/// The fan-out targets are exactly the subscribed clients, one per entry in
/// registry order: a single output burst under the shared policy therefore
/// reaches each currently subscribed id exactly once, every message carrying
/// the same payload bytes.
pub proof fn lemma_fanout_targets_exact(s: Seq<EntryModel>)
    requires
        unique_ids(s),
    ensures
        ids_of(s).len() == s.len(),
        forall|i: int| 0 <= i < s.len() ==> ids_of(s)[i] == (#[trigger] s[i]).client_id,
        forall|x: u16| #[trigger] ids_of(s).contains(x) <==> has_id(s, x),
        forall|p: int, q: int| 0 <= p < q < s.len() ==> ids_of(s)[p] != ids_of(s)[q],
{
    lemma_ids_elementwise(s);
    assert forall|p: int, q: int| 0 <= p < q < s.len() implies ids_of(s)[p] != ids_of(s)[q] by {
        assert(ids_of(s)[p] == s[p].client_id);
        assert(ids_of(s)[q] == s[q].client_id);
        assert(s[p].client_id != s[q].client_id);
    }
    assert forall|x: u16| #[trigger] ids_of(s).contains(x) <==> has_id(s, x) by {
        if ids_of(s).contains(x) {
            let i = choose|i: int| 0 <= i < ids_of(s).len() && ids_of(s)[i] == x;
            assert(s[i].client_id == x);
        }
        if has_id(s, x) {
            let i = choose|i: int| 0 <= i < s.len() && s[i].client_id == x;
            assert(ids_of(s)[i] == x);
        }
    }
}

/// After a bound process exits and its binding is cleared, the client is
/// still subscribed with its label, back in the no-process state — so its
/// next data message orders a fresh spawn — and the registry stays well
/// formed with every other client untouched.
pub proof fn lemma_exit_keeps_subscription(s: Seq<EntryModel>, id: u16)
    requires
        unique_ids(s),
        unique_descriptors(s),
        has_id(s, id),
        entry_of(s, id).binding is WithProcess,
    ensures
        ({
            let t = spec_clear_binding(s, id);
            &&& unique_ids(t)
            &&& unique_descriptors(t)
            &&& has_id(t, id)
            &&& entry_of(t, id).binding is NoProcess
            &&& entry_of(t, id).label == entry_of(s, id).label
            &&& t.len() == s.len()
            &&& forall|x: u16| #[trigger] has_id(t, x) <==> has_id(s, x)
        }),
{
    let i = idx_of(s, id);
    assert(0 <= i < s.len() && s[i].client_id == id);
    let t = spec_clear_binding(s, id);
    assert forall|p: int| 0 <= p < t.len() implies (#[trigger] t[p]).client_id == s[p].client_id
    by {
        if p != i {
            assert(t[p] == s[p]);
        }
    }
    assert forall|p: int, q: int| 0 <= p < q < t.len() implies (#[trigger] t[p]).client_id != (
    #[trigger] t[q]).client_id by {
        assert(s[p].client_id != s[q].client_id);
    }
    assert forall|p: int, q: int|
        0 <= p < q < t.len() && (#[trigger] t[p]).binding is WithProcess && (
        #[trigger] t[q]).binding is WithProcess implies t[p].binding->0 != t[q].binding->0 by {
        assert(t[p] == s[p] && t[q] == s[q]);
    }
    lemma_idx_of_unique(t, id, i);
    assert forall|x: u16| #[trigger] has_id(t, x) <==> has_id(s, x) by {
        if has_id(t, x) {
            let k = choose|k: int| 0 <= k < t.len() && t[k].client_id == x;
            assert(s[k].client_id == x);
        }
        if has_id(s, x) {
            let k = choose|k: int| 0 <= k < s.len() && s[k].client_id == x;
            assert(t[k].client_id == x);
        }
    }
}

} // verus!
