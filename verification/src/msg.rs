//! Transport message shapes consumed and produced by the dispatcher.

use vstd::prelude::*;

verus! {

/// Bound on one readiness-driven read from a process's output stream: a
/// larger burst is completed across subsequent steps, never blocking.
pub const READ_CHUNK: usize = 2048;

/// The kinds of transport messages the dispatcher distinguishes.  `Other`
/// stands for every kind the dispatcher ignores.
#[derive(Clone, Copy, PartialEq, Eq, Structural, Debug)]
pub enum MsgKind {
    Subscribe,
    Unsubscribe,
    UnsubscribeAll,
    Data,
    Other,
}

/// One inbound transport message: its kind, the originating client, and the
/// payload bytes.
pub struct InboundMsg {
    pub kind: MsgKind,
    pub client_id: u16,
    pub data: Vec<u8>,
}

/// One outbound transport message pushed back to the channel, tagged with the
/// client it is addressed to.
pub struct OutboundMsg {
    pub kind: MsgKind,
    pub client_id: u16,
    pub data: Vec<u8>,
}

/// Build an outbound data message for `client_id` carrying a copy of `bytes`.
pub fn data_message(client_id: u16, bytes: &Vec<u8>) -> (m: OutboundMsg)
    ensures
        m.kind == MsgKind::Data,
        m.client_id == client_id,
        m.data@ == bytes@,
{
    let data = vstd::slice::slice_to_vec(bytes.as_slice());
    OutboundMsg { kind: MsgKind::Data, client_id, data }
}

/// Build the synthetic unsubscribe notification emitted upstream for
/// `client_id` when the whole registry is being cleared.
pub fn unsubscribe_notice(client_id: u16) -> (m: OutboundMsg)
    ensures
        m.kind == MsgKind::Unsubscribe,
        m.client_id == client_id,
        m.data@ == Seq::<u8>::empty(),
{
    OutboundMsg { kind: MsgKind::Unsubscribe, client_id, data: Vec::new() }
}

/// Fan one payload out to every id in `ids`: one outbound data message per id,
/// all carrying identical bytes, in the order the ids are given.
pub fn fan_out_data(ids: &Vec<u16>, bytes: &Vec<u8>) -> (msgs: Vec<OutboundMsg>)
    ensures
        msgs@.len() == ids@.len(),
        forall|i: int|
            0 <= i < msgs@.len() ==> {
                &&& (#[trigger] msgs@[i]).kind == MsgKind::Data
                &&& msgs@[i].client_id == ids@[i]
                &&& msgs@[i].data@ == bytes@
            },
{
    let mut msgs: Vec<OutboundMsg> = Vec::new();
    let mut i: usize = 0;
    while i < ids.len()
        invariant
            i <= ids@.len(),
            msgs@.len() == i,
            forall|j: int|
                0 <= j < i ==> {
                    &&& (#[trigger] msgs@[j]).kind == MsgKind::Data
                    &&& msgs@[j].client_id == ids@[j]
                    &&& msgs@[j].data@ == bytes@
                },
        decreases ids@.len() - i,
    {
        msgs.push(data_message(ids[i], bytes));
        i = i + 1;
    }
    msgs
}

} // verus!
