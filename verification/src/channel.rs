//! The unbounded channel between the stages and the collector.
//!
//! The channel is tokio's. Nothing is proved of it here: the few lines that
//! touch it are marked as trusted, and each says what it takes on trust. Two
//! names stand for what a sending end has been through: the calls of `send`
//! made on it, and the channel it belongs to. An [`Outlet`] is a sending end
//! seen through those names.
use vstd::prelude::*;
use tokio::sync::mpsc::{UnboundedReceiver, UnboundedSender};
use crate::item::{Compressed, ItemView, RelayError};

verus! {

/// Trusted: tokio's `UnboundedSender`, the sending half of an unbounded
/// channel. Nothing inside it is visible to a proof.
#[verifier::external_type_specification]
#[verifier::external_body]
#[verifier::reject_recursive_types(T)]
pub struct ExUnboundedSender<T>(UnboundedSender<T>);

/// Trusted: tokio's `UnboundedReceiver`, the receiving half of an unbounded
/// channel. Nothing inside it is visible to a proof.
#[verifier::external_type_specification]
#[verifier::external_body]
#[verifier::reject_recursive_types(T)]
pub struct ExUnboundedReceiver<T>(UnboundedReceiver<T>);

/// Trusted name: the calls of `UnboundedSender::send` that were made on a
/// sending end, oldest first. Each entry is the item that was handed over and
/// whether the channel took it.
pub uninterp spec fn sends(handle: UnboundedSender<Compressed>) -> Seq<(ItemView, bool)>;

/// Trusted name: the channel that a sending end belongs to. A call of
/// `UnboundedSender::send` leaves it as it is.
pub uninterp spec fn channel_of(handle: UnboundedSender<Compressed>) -> int;

/// Trusted: calls `tokio::sync::mpsc::unbounded_channel`, which returns the
/// two halves of a new channel. The claim is that nothing was sent on the
/// new sending half yet.
#[verifier::external_body]
fn open_channel() -> (halves: (UnboundedSender<Compressed>, UnboundedReceiver<Compressed>))
    ensures
        sends(halves.0) == Seq::<(ItemView, bool)>::empty(),
{
    tokio::sync::mpsc::unbounded_channel::<Compressed>()
}

/// Trusted: calls `UnboundedSender::send`, which never waits. It returns `Ok`
/// when the channel took the item, and an error that holds the item when the
/// receiving half was closed or dropped.
///
/// The claims: the call is one more entry among the calls made on this end,
/// with the item that went in and, as its mark, whether the answer is `Ok`;
/// the end still belongs to the same channel; an item that comes back is the
/// one that went in. tokio ends the process instead of answering if more
/// messages wait in the channel than a `usize` can count, which no memory
/// holds.
#[verifier::external_body]
fn hand_over(handle: &mut UnboundedSender<Compressed>, item: Compressed) -> (res: Result<
    (),
    Compressed,
>)
    ensures
        sends(*final(handle)) == sends(*old(handle)).push((item@, res is Ok)),
        channel_of(*final(handle)) == channel_of(*old(handle)),
        res matches Err(back) ==> back@ == item@,
{
    match handle.send(item) {
        Ok(()) => Ok(()),
        Err(refused) => Err(refused.0),
    }
}

/// The items of the calls that the channel took, in the order of the calls.
pub open spec fn taken(calls: Seq<(ItemView, bool)>) -> Seq<ItemView> {
    calls.filter(|call: (ItemView, bool)| call.1).map_values(|call: (ItemView, bool)| call.0)
}

/// How many of the calls the channel refused.
pub open spec fn refusals(calls: Seq<(ItemView, bool)>) -> nat {
    calls.filter(|call: (ItemView, bool)| !call.1).len()
}

/// One more call adds its item to the taken items if the channel took it,
/// and one to the refusals if it did not.
pub proof fn lemma_call_recorded(calls: Seq<(ItemView, bool)>, item: ItemView, took: bool)
    ensures
        taken(calls.push((item, took))) == (if took {
            taken(calls).push(item)
        } else {
            taken(calls)
        }),
        refusals(calls.push((item, took))) == refusals(calls) + (if took {
            0nat
        } else {
            1nat
        }),
{
    let longer = calls.push((item, took));
    assert(longer.drop_last() =~= calls);
    assert(longer.last() == (item, took));
    let was_taken = |call: (ItemView, bool)| call.1;
    let was_refused = |call: (ItemView, bool)| !call.1;
    reveal_with_fuel(Seq::filter, 2);
    assert(longer.filter(was_taken) == (if took {
        calls.filter(was_taken).push((item, took))
    } else {
        calls.filter(was_taken)
    }));
    assert(longer.filter(was_refused) == (if took {
        calls.filter(was_refused)
    } else {
        calls.filter(was_refused).push((item, took))
    }));
    if took {
        assert(taken(longer) =~= taken(calls).push(item));
    }
}

/// The sending end of the channel.
pub struct Outlet {
    handle: UnboundedSender<Compressed>,
}

impl Outlet {
    /// Every send that was tried on this outlet, oldest first: the item, and
    /// whether the channel took it.
    pub closed spec fn calls(&self) -> Seq<(ItemView, bool)> {
        sends(self.handle)
    }

    /// The channel that this outlet is the sending end of.
    pub closed spec fn end(&self) -> int {
        channel_of(self.handle)
    }

    /// The items that the channel accepted from this outlet, oldest first.
    pub open spec fn accepted(&self) -> Seq<ItemView> {
        taken(self.calls())
    }

    /// How many sends on this outlet the channel refused.
    pub open spec fn refused(&self) -> nat {
        refusals(self.calls())
    }

    /// Sends one item, once. The outlet stays the sending end of the same
    /// channel, and the send is one more of its calls. Either the channel
    /// accepts the item, and the accepted items grow by it, or the receiving
    /// end is gone: then the accepted items stay as they were, there is one
    /// more refusal, and the error is `ChannelClosed`.
    pub fn send(&mut self, item: Compressed) -> (res: Result<(), RelayError>)
        ensures
            final(self).end() == old(self).end(),
            final(self).calls() == old(self).calls().push((item@, res is Ok)),
            res is Ok ==> final(self).accepted() == old(self).accepted().push(item@)
                && final(self).refused() == old(self).refused(),
            res is Err ==> res == Err::<(), RelayError>(RelayError::ChannelClosed)
                && final(self).accepted() == old(self).accepted() && final(self).refused() == old(
                self,
            ).refused() + 1,
    {
        let ghost sent = item@;
        let ghost before = self.calls();
        match hand_over(&mut self.handle, item) {
            Ok(()) => {
                proof {
                    lemma_call_recorded(before, sent, true);
                }
                Ok(())
            },
            Err(_) => {
                proof {
                    lemma_call_recorded(before, sent, false);
                }
                Err(RelayError::ChannelClosed)
            },
        }
    }
}

/// Opens a channel. Nothing was sent on the outlet yet; the receiving half
/// goes to whoever collects.
pub fn channel() -> (ends: (Outlet, UnboundedReceiver<Compressed>))
    ensures
        ends.0.calls() == Seq::<(ItemView, bool)>::empty(),
        ends.0.accepted() == Seq::<ItemView>::empty(),
        ends.0.refused() == 0,
{
    let (handle, receiver) = open_channel();
    (Outlet { handle }, receiver)
}

} // verus!
