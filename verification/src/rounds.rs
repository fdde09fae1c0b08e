//! Messages received in one round, indexed by sender.

use crate::utils::reverse_vec;
use vstd::prelude::*;

verus! {

/// Index of a party.
pub type PartyIndex = u16;

/// Identifier that the transport gave to a received message.
pub type MsgId = u64;

/// The party that the `k`-th message of a round came from, where the receiver is party `i`:
/// the senders are all parties but `i`, in increasing order.
pub open spec fn sender_of(i: PartyIndex, k: int) -> int {
    if k < i {
        k
    } else {
        k + 1
    }
}

/// The messages that party `i` received from every other party in one round, in the order of
/// their senders' indexes.
pub struct RoundMsgs<M> {
    i: PartyIndex,
    ids: Vec<MsgId>,
    messages: Vec<M>,
}

impl<M> RoundMsgs<M> {
    #[verifier::type_invariant]
    pub closed spec fn wf(self) -> bool {
        &&& self.ids.len() == self.messages.len()
        &&& self.messages.len() < u16::MAX
        &&& self.i <= self.messages.len()
    }

    /// Index of the receiving party.
    pub closed spec fn receiver(self) -> PartyIndex {
        self.i
    }

    /// The identifiers of the messages, in the senders' order.
    pub closed spec fn ids(self) -> Seq<MsgId> {
        self.ids@
    }

    /// The messages, in the senders' order.
    pub closed spec fn messages(self) -> Seq<M> {
        self.messages@
    }

    /// The number of messages: one for each other party.
    pub open spec fn count(self) -> nat {
        self.messages().len()
    }

    /// Puts together the messages that party `i` received: `None` unless there are as many
    /// identifiers as messages, fewer than `u16::MAX` of them, and `i` is at most their number.
    pub fn new(i: PartyIndex, ids: Vec<MsgId>, messages: Vec<M>) -> (r: Option<RoundMsgs<M>>)
        ensures
            r is Some <==> ids.len() == messages.len() && messages.len() < u16::MAX && i
                <= messages.len(),
            r matches Some(m) ==> m.receiver() == i && m.ids() == ids@ && m.messages()
                == messages@,
    {
        if ids.len() == messages.len() && messages.len() < 0xffff && (i as usize)
            <= messages.len() {
            Some(RoundMsgs { i, ids, messages })
        } else {
            None
        }
    }

    /// Index of the receiving party.
    pub fn me(&self) -> (r: PartyIndex)
        ensures
            r == self.receiver(),
    {
        self.i
    }

    /// The number of messages.
    pub fn len(&self) -> (r: usize)
        ensures
            r == self.count(),
            self.ids().len() == self.count(),
            r < u16::MAX,
            self.receiver() <= r,
    {
        proof {
            use_type_invariant(self);
        }
        self.messages.len()
    }

    /// The party that sent the `k`-th message.
    pub fn sender(&self, k: usize) -> (r: PartyIndex)
        requires
            k < self.count(),
        ensures
            r == sender_of(self.receiver(), k as int),
    {
        proof {
            use_type_invariant(self);
        }
        if k < self.i as usize {
            k as u16
        } else {
            (k + 1) as u16
        }
    }

    /// The identifier of the `k`-th message.
    pub fn msg_id(&self, k: usize) -> (r: MsgId)
        requires
            k < self.count(),
        ensures
            r == self.ids()[k as int],
    {
        proof {
            use_type_invariant(self);
        }
        self.ids[k]
    }

    /// The `k`-th message.
    pub fn message(&self, k: usize) -> (r: &M)
        requires
            k < self.count(),
        ensures
            *r == self.messages()[k as int],
    {
        &self.messages[k]
    }

    /// All the messages of the round, the receiver's own put at its index.
    pub fn into_vec_including_me(self, my_msg: M) -> (r: Vec<M>)
        ensures
            r@ == self.messages().insert(self.receiver() as int, my_msg),
    {
        proof {
            use_type_invariant(&self);
        }
        let mut messages = self.messages;
        messages.insert(self.i as usize, my_msg);
        messages
    }
}

/// Whom a message is for.
#[derive(Clone, Copy, Debug, PartialEq, Eq, Structural)]
pub enum MessageDestination {
    /// Every other party (a broadcast).
    AllParties,
    /// One party.
    OneParty(PartyIndex),
}

/// A message to send.
pub struct Outgoing<M> {
    /// Whom the message is for.
    pub recipient: MessageDestination,
    /// The message.
    pub msg: M,
}

impl<M> Outgoing<M> {
    /// A message for every other party.
    pub fn broadcast(msg: M) -> (r: Self)
        ensures
            r.recipient == MessageDestination::AllParties,
            r.msg == msg,
    {
        Outgoing { recipient: MessageDestination::AllParties, msg }
    }

    /// A message for one party.
    pub fn p2p(recipient: PartyIndex, msg: M) -> (r: Self)
        ensures
            r.recipient == MessageDestination::OneParty(recipient),
            r.msg == msg,
    {
        Outgoing { recipient: MessageDestination::OneParty(recipient), msg }
    }
}

/// Addresses one message to each peer of party `i`: the `k`-th message goes to the `k`-th of
/// the other parties, in the order of their indexes.
pub fn address_to_peers<M>(i: PartyIndex, msgs: Vec<M>) -> (r: Vec<Outgoing<M>>)
    requires
        msgs@.len() < u16::MAX,
    ensures
        r@.len() == msgs@.len(),
        forall|k: int|
            0 <= k < msgs@.len() ==> (#[trigger] r@[k]).recipient == MessageDestination::OneParty(
                sender_of(i, k) as u16,
            ) && r@[k].msg == msgs@[k],
{
    let ghost all = msgs@;
    let mut msgs = msgs;
    let mut out: Vec<Outgoing<M>> = Vec::new();
    while msgs.len() > 0
        invariant
            msgs@.len() <= all.len(),
            all.len() < u16::MAX,
            msgs@ == all.subrange(0, msgs@.len() as int),
            out@.len() + msgs@.len() == all.len(),
            forall|k: int|
                0 <= k < out@.len() ==> (#[trigger] out@[k]).recipient
                    == MessageDestination::OneParty(sender_of(i, all.len() - 1 - k) as u16)
                    && out@[k].msg == all[all.len() - 1 - k],
        decreases msgs@.len(),
    {
        let k: usize = msgs.len() - 1;
        let to: PartyIndex = if k < i as usize {
            k as u16
        } else {
            (k + 1) as u16
        };
        let item = msgs.pop();
        assert(msgs@ =~= all.subrange(0, msgs@.len() as int));
        match item {
            Some(m) => {
                out.push(Outgoing::p2p(to, m));
            },
            None => {},
        }
    }
    reverse_vec(&mut out);
    out
}

} // verus!
