//! The outbound channel of one connection, with a record of what went out
//! on it.
use tokio::sync::mpsc::UnboundedSender;
use vstd::prelude::*;

verus! {

#[verifier::external_type_specification]
#[verifier::external_body]
#[verifier::reject_recursive_types(T)]
pub struct ExUnboundedSender<T>(UnboundedSender<T>);

/// The sending half of a connection's channel. `sent` records every
/// payload that went out on it, in order; `closed` records that a push
/// found the receiving side gone, which it then stays.
pub struct Outbound {
    tx: UnboundedSender<String>,
    sent: Ghost<Seq<Seq<char>>>,
    closed: Ghost<bool>,
}

impl Outbound {
    /// The payloads pushed on this channel so far, oldest first.
    pub closed spec fn sent(&self) -> Seq<Seq<char>> {
        self.sent@
    }

    /// A push on this channel has failed: its receiver is gone.
    pub closed spec fn is_closed(&self) -> bool {
        self.closed@
    }

    /// Wraps the sending half of a fresh channel.
    pub fn new(tx: UnboundedSender<String>) -> (r: Outbound)
        ensures
            r.sent() == Seq::<Seq<char>>::empty(),
            !r.is_closed(),
    {
        Outbound { tx, sent: Ghost(Seq::empty()), closed: Ghost(false) }
    }

    /// Relies on tokio's `UnboundedSender::send`: it hands the payload to
    /// the receiver and succeeds unless the receiver has been closed or
    /// dropped, which is final; then it hands the payload back.
    #[verifier::external_body]
    pub fn push(&mut self, payload: String) -> (r: bool)
        ensures
            old(self).is_closed() ==> !r,
            r ==> final(self).sent() == old(self).sent().push(payload@) && !final(self).is_closed(),
            !r ==> final(self).sent() == old(self).sent() && final(self).is_closed(),
    {
        self.tx.send(payload).is_ok()
    }
}

} // verus!
