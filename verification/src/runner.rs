//! The producer side: stages that turn a batch into items and send them.
//!
//! A stage works through its batch one element at a time. For each element it
//! clears the scratch buffer, encodes the element into it, sends a snapshot of
//! the buffer as a binary-encoded item, and clears the buffer again. After
//! each item it asks for a pause, which is the caller's to take: a [`Stage`]
//! never waits itself.
//!
//! Stages share one scratch buffer and one [`Outlet`], both by exclusive
//! borrow, so two stages cannot run at once.
use vstd::prelude::*;
use crate::channel::Outlet;
use crate::item::{Compressed, ItemView, RelayError};

verus! {

/// The bytes that stand for one element: the element itself, as one byte.
pub open spec fn encoding(x: u8) -> Seq<u8> {
    seq![x]
}

/// The item that a stage sends for one element.
pub open spec fn item_of(x: u8) -> ItemView {
    ItemView::Binaries(encoding(x))
}

/// The items that a stage sends for a batch: one per element, in the order of
/// the batch.
pub open spec fn batch_items(batch: Seq<u8>) -> Seq<ItemView> {
    batch.map_values(|x: u8| item_of(x))
}

/// The items that stages send for `batches` when they run one after another:
/// the items of the first batch, then those of the second, and so on.
pub open spec fn emitted(batches: Seq<Seq<u8>>) -> Seq<ItemView> {
    batches.flat_map(|batch: Seq<u8>| batch_items(batch))
}

/// The batches that a vector of vectors holds.
pub open spec fn batch_views(batches: Seq<Vec<u8>>) -> Seq<Seq<u8>> {
    batches.map_values(|batch: Vec<u8>| batch@)
}

/// The calls on an outlet by which the channel takes every one of `items`,
/// in order.
pub open spec fn delivered(items: Seq<ItemView>) -> Seq<(ItemView, bool)> {
    items.map_values(|item: ItemView| (item, true))
}

/// The calls on an outlet of a run that ends at the item in place `sent`:
/// the channel takes the items before it and refuses that one, and nothing
/// is tried after the refusal.
pub open spec fn cut_short(items: Seq<ItemView>, sent: int) -> Seq<(ItemView, bool)>
    recommends
        0 <= sent < items.len(),
{
    delivered(items.take(sent)).push((items[sent], false))
}

/// Stages that run over `first` and then over `then` send what the stages
/// over `first` send, followed by what the stages over `then` send.
pub proof fn lemma_emitted_concat(first: Seq<Seq<u8>>, then: Seq<Seq<u8>>)
    ensures
        emitted(first + then) == emitted(first) + emitted(then),
{
    let per_batch = |batch: Seq<u8>| batch_items(batch);
    assert((first + then).map_values(per_batch) =~= first.map_values(per_batch) + then.map_values(
        per_batch,
    ));
    vstd::seq_lib::lemma_flatten_concat(first.map_values(per_batch), then.map_values(per_batch));
}

/// A single stage sends the items of its batch.
pub proof fn lemma_emitted_single(batch: Seq<u8>)
    ensures
        emitted(seq![batch]) == batch_items(batch),
{
    seq![batch].lemma_flat_map_singleton(|batch: Seq<u8>| batch_items(batch));
}

/// Appends the encoding of `x` to `buffer`.
pub fn encode_into(x: u8, buffer: &mut Vec<u8>)
    ensures
        final(buffer)@ == old(buffer)@ + encoding(x),
{
    buffer.push(x);
}

/// What the caller of [`Stage::step`] has to do next.
#[derive(Debug, Clone, Copy, PartialEq, Eq, Structural)]
pub enum StageStep {
    /// An item went out. Wait for this many milliseconds, then step again.
    Pause(u64),
    /// The batch is used up. Nothing was sent by this step.
    Finished,
}

/// One stage: a batch, the place reached in it, and the pause that follows
/// each item.
pub struct Stage {
    data: Vec<u8>,
    cursor: usize,
    pause_millis: u64,
}

impl Stage {
    #[verifier::type_invariant]
    spec fn cursor_in_batch(self) -> bool {
        self.cursor <= self.data@.len()
    }

    /// The elements of the stage's batch.
    pub closed spec fn batch(&self) -> Seq<u8> {
        self.data@
    }

    /// How many elements of the batch went out as items.
    pub closed spec fn position(&self) -> nat {
        self.cursor as nat
    }

    /// The pause after each item, in milliseconds.
    pub closed spec fn pause(&self) -> u64 {
        self.pause_millis
    }

    /// Whether an element is still waiting to go out.
    pub open spec fn pending(&self) -> bool {
        self.position() < self.batch().len()
    }

    /// The element that waits to go out, where one does.
    pub open spec fn current(&self) -> u8
        recommends
            self.pending(),
    {
        self.batch()[self.position() as int]
    }

    /// What a step answers, given whether the channel accepted the item of
    /// the waiting element: with no element waiting the stage is finished;
    /// after a delivery it asks for its pause; after a refusal it fails.
    pub open spec fn verdict(&self, delivered: bool) -> Result<StageStep, RelayError> {
        if !self.pending() {
            Ok(StageStep::Finished)
        } else if delivered {
            Ok(StageStep::Pause(self.pause()))
        } else {
            Err(RelayError::ChannelClosed)
        }
    }

    /// A stage at the start of `data`.
    pub fn new(data: Vec<u8>, pause_millis: u64) -> (stage: Stage)
        ensures
            stage.batch() == data@,
            stage.position() == 0,
            stage.pause() == pause_millis,
    {
        Stage { data, cursor: 0, pause_millis }
    }

    /// The element that the next step will send, if one is left.
    pub fn peek(&self) -> (next: Option<u8>)
        ensures
            next == (if self.pending() {
                Some(self.current())
            } else {
                None
            }),
    {
        proof {
            use_type_invariant(self);
        }
        if self.cursor < self.data.len() {
            Some(self.data[self.cursor])
        } else {
            None
        }
    }

    /// The first half of a step: forms the item for the waiting element.
    ///
    /// The scratch buffer is cleared, takes the element's encoding, and the
    /// item is a snapshot of it. With no element waiting there is no item,
    /// and the buffer is left alone.
    pub fn prepare(&self, scratch: &mut Vec<u8>) -> (item: Option<Compressed>)
        ensures
            item is Some <==> self.pending(),
            item matches Some(formed) ==> formed@ == item_of(self.current()),
            self.pending() ==> final(scratch)@ == encoding(self.current()),
            !self.pending() ==> final(scratch)@ == old(scratch)@,
    {
        proof {
            use_type_invariant(self);
        }
        if self.cursor < self.data.len() {
            scratch.clear();
            encode_into(self.data[self.cursor], scratch);
            Some(Compressed::Binaries(scratch.clone()))
        } else {
            None
        }
    }

    /// The second half of a step: takes in whether the channel accepted the
    /// item that [`Stage::prepare`] formed.
    ///
    /// The scratch buffer is cleared. If the item was delivered, the stage
    /// moves on by one element and asks for its pause; if not, the stage
    /// stays where it is and fails with `ChannelClosed`. With no element
    /// waiting there was nothing to deliver: the stage is finished, and
    /// nothing changes.
    pub fn settle(&mut self, delivered: bool, scratch: &mut Vec<u8>) -> (res: Result<
        StageStep,
        RelayError,
    >)
        ensures
            final(self).batch() == old(self).batch(),
            final(self).pause() == old(self).pause(),
            final(self).position() <= final(self).batch().len(),
            res == old(self).verdict(delivered),
            final(self).position() == old(self).position() + (if old(self).pending() && delivered {
                1nat
            } else {
                0nat
            }),
            final(scratch)@ == (if old(self).pending() {
                Seq::<u8>::empty()
            } else {
                old(scratch)@
            }),
    {
        proof {
            use_type_invariant(&*self);
        }
        if self.cursor >= self.data.len() {
            return Ok(StageStep::Finished);
        }
        scratch.clear();
        if delivered {
            self.cursor = self.cursor + 1;
            Ok(StageStep::Pause(self.pause_millis))
        } else {
            Err(RelayError::ChannelClosed)
        }
    }

    /// One step: sends the item for the waiting element, if there is one.
    ///
    /// With an element waiting, its item is handed to the channel, once. If
    /// the channel accepts it, the outlet's accepted items grow by exactly
    /// that item, the stage moves on by one element and asks for its pause.
    /// If the receiving end is gone, the step fails with `ChannelClosed`:
    /// the stage stays where it is, and the outlet has one more refusal.
    /// Either way the scratch buffer ends empty. With no element waiting the
    /// stage is finished, nothing is sent and nothing changes. The outlet
    /// stays the sending end of the same channel.
    pub fn step(&mut self, outlet: &mut Outlet, scratch: &mut Vec<u8>) -> (res: Result<
        StageStep,
        RelayError,
    >)
        ensures
            final(self).batch() == old(self).batch(),
            final(self).pause() == old(self).pause(),
            final(self).position() <= final(self).batch().len(),
            !old(self).pending() ==> res is Ok,
            res == old(self).verdict(res is Ok),
            final(self).position() == old(self).position() + (if old(self).pending() && res is Ok {
                1nat
            } else {
                0nat
            }),
            final(outlet).end() == old(outlet).end(),
            final(outlet).calls() == (if old(self).pending() {
                old(outlet).calls().push((item_of(old(self).current()), res is Ok))
            } else {
                old(outlet).calls()
            }),
            final(outlet).accepted() == (if old(self).pending() && res is Ok {
                old(outlet).accepted().push(item_of(old(self).current()))
            } else {
                old(outlet).accepted()
            }),
            final(outlet).refused() == old(outlet).refused() + (if res is Err {
                1nat
            } else {
                0nat
            }),
            final(scratch)@ == (if old(self).pending() {
                Seq::<u8>::empty()
            } else {
                old(scratch)@
            }),
    {
        match self.prepare(scratch) {
            Some(item) => {
                let delivered = outlet.send(item).is_ok();
                self.settle(delivered, scratch)
            },
            None => self.settle(true, scratch),
        }
    }
}

/// Runs one stage over `data` from start to end, without pausing.
///
/// The stage sends the items of the batch in order, each once, and stops at
/// the first refusal. On success every element went out: the channel took
/// the items of the whole batch, and nothing was refused. A stage fails only
/// when the receiving end of the channel is gone: the channel then took the
/// items of the elements before the refused one, the refused send is the
/// stage's last, and the error is `ChannelClosed`. The outlet stays the
/// sending end of the same channel. An empty batch always succeeds, sends
/// nothing and leaves the scratch buffer alone; after any other batch the
/// buffer is empty.
pub fn heavy_duty(outlet: &mut Outlet, data: Vec<u8>, scratch: &mut Vec<u8>) -> (res: Result<
    (),
    RelayError,
>)
    ensures
        data@.len() == 0 ==> res is Ok,
        final(outlet).end() == old(outlet).end(),
        res is Ok ==> final(outlet).calls() == old(outlet).calls() + delivered(batch_items(data@))
            && final(outlet).accepted() == old(outlet).accepted() + batch_items(data@)
            && final(outlet).refused() == old(outlet).refused(),
        res is Err ==> res == Err::<(), RelayError>(RelayError::ChannelClosed)
            && final(outlet).refused() == old(outlet).refused() + 1
            && exists|sent: int|
                0 <= sent < data@.len()
                    && final(outlet).calls() == old(outlet).calls() + cut_short(
                    batch_items(data@),
                    sent,
                ) && final(outlet).accepted() == old(outlet).accepted() + #[trigger] batch_items(
                    data@.take(sent),
                ),
        final(scratch)@ == (if data@.len() == 0 {
            old(scratch)@
        } else {
            Seq::<u8>::empty()
        }),
{
    let ghost batch = data@;
    let ghost calls_before = outlet.calls();
    let ghost before = outlet.accepted();
    let ghost untouched = scratch@;
    let mut stage = Stage::new(data, 0);
    proof {
        assert(batch.take(0) =~= Seq::<u8>::empty());
        assert(before + batch_items(batch.take(0)) =~= before);
        assert(calls_before + delivered(batch_items(batch.take(0))) =~= calls_before);
    }
    loop
        invariant
            batch == data@,
            calls_before == old(outlet).calls(),
            before == old(outlet).accepted(),
            untouched == old(scratch)@,
            stage.batch() == batch,
            stage.position() <= batch.len(),
            outlet.end() == old(outlet).end(),
            outlet.refused() == old(outlet).refused(),
            outlet.calls() == calls_before + delivered(
                batch_items(batch.take(stage.position() as int)),
            ),
            outlet.accepted() == before + batch_items(batch.take(stage.position() as int)),
            scratch@ == (if stage.position() == 0 {
                untouched
            } else {
                Seq::<u8>::empty()
            }),
        decreases batch.len() - stage.position(),
    {
        let ghost sent = stage.position() as int;
        match stage.step(outlet, scratch) {
            Ok(StageStep::Pause(_)) => {
                assert(batch_items(batch.take(sent + 1)) =~= batch_items(batch.take(sent)).push(
                    item_of(batch[sent]),
                ));
                assert(before + batch_items(batch.take(sent + 1)) =~= (before + batch_items(
                    batch.take(sent),
                )).push(item_of(batch[sent])));
                assert(calls_before + delivered(batch_items(batch.take(sent + 1))) =~= (calls_before
                    + delivered(batch_items(batch.take(sent)))).push((item_of(batch[sent]), true)));
            },
            Ok(StageStep::Finished) => {
                assert(batch.take(sent) =~= batch);
                return Ok(());
            },
            Err(refused) => {
                proof {
                    assert(batch_items(batch).take(sent) =~= batch_items(batch.take(sent)));
                    assert(calls_before + cut_short(batch_items(batch), sent) =~= (calls_before
                        + delivered(batch_items(batch.take(sent)))).push(
                        (item_of(batch[sent]), false),
                    ));
                }
                return Err(refused);
            },
        }
    }
}

/// Runs one stage per batch, one after another, without pausing.
///
/// The stages send the items of all batches, batch by batch and element by
/// element, each once, and the run stops at the first refusal. On success
/// the channel took all of them, and nothing was refused. The run fails only
/// when the receiving end of the channel is gone: the channel then took the
/// items before the refused one, the refused send is the run's last, no
/// later stage runs, and the error is `ChannelClosed`. The outlet stays the
/// sending end of the same channel. Batches without any element always
/// succeed and leave the scratch buffer alone; after any other run the
/// buffer is empty.
pub fn run_stages(outlet: &mut Outlet, batches: Vec<Vec<u8>>, scratch: &mut Vec<u8>) -> (res:
    Result<(), RelayError>)
    ensures
        emitted(batch_views(batches@)).len() == 0 ==> res is Ok,
        final(outlet).end() == old(outlet).end(),
        res is Ok ==> final(outlet).calls() == old(outlet).calls() + delivered(
            emitted(batch_views(batches@)),
        ) && final(outlet).accepted() == old(outlet).accepted() + emitted(batch_views(batches@))
            && final(outlet).refused() == old(outlet).refused(),
        res is Err ==> res == Err::<(), RelayError>(RelayError::ChannelClosed)
            && final(outlet).refused() == old(outlet).refused() + 1
            && exists|sent: int|
                0 <= sent < emitted(batch_views(batches@)).len()
                    && final(outlet).calls() == old(outlet).calls() + cut_short(
                    emitted(batch_views(batches@)),
                    sent,
                ) && final(outlet).accepted() == old(outlet).accepted() + #[trigger] emitted(
                    batch_views(batches@),
                ).take(sent),
        final(scratch)@ == (if emitted(batch_views(batches@)).len() == 0 {
            old(scratch)@
        } else {
            Seq::<u8>::empty()
        }),
{
    let ghost all = batch_views(batches@);
    let ghost calls_before = outlet.calls();
    let ghost before = outlet.accepted();
    let ghost untouched = scratch@;
    proof {
        assert(all.take(0) =~= Seq::<Seq<u8>>::empty());
        lemma_emitted_concat(all.take(0), all.take(0));
        assert(all.take(0) + all.take(0) =~= all.take(0));
        assert(before + emitted(all.take(0)) =~= before);
        assert(calls_before + delivered(emitted(all.take(0))) =~= calls_before);
    }
    for data in stages: batches
        invariant
            all == batch_views(batches@),
            calls_before == old(outlet).calls(),
            before == old(outlet).accepted(),
            untouched == old(scratch)@,
            stages.seq() == batches@,
            outlet.end() == old(outlet).end(),
            outlet.refused() == old(outlet).refused(),
            outlet.calls() == calls_before + delivered(emitted(all.take(stages.index() as int))),
            outlet.accepted() == before + emitted(all.take(stages.index() as int)),
            scratch@ == (if emitted(all.take(stages.index() as int)).len() == 0 {
                untouched
            } else {
                Seq::<u8>::empty()
            }),
    {
        let ghost done = stages.index() as int;
        let ghost batch = data@;
        let ghost earlier = emitted(all.take(done));
        proof {
            assert(all[done] == batch);
            assert(all.take(done + 1) =~= all.take(done) + seq![batch]);
            lemma_emitted_concat(all.take(done), seq![batch]);
            lemma_emitted_single(batch);
            assert(all =~= all.take(done + 1) + all.skip(done + 1));
            lemma_emitted_concat(all.take(done + 1), all.skip(done + 1));
        }
        match heavy_duty(outlet, data, scratch) {
            Ok(()) => {
                assert(before + emitted(all.take(done + 1)) =~= before + earlier + batch_items(
                    batch,
                ));
                assert(calls_before + delivered(emitted(all.take(done + 1))) =~= calls_before
                    + delivered(earlier) + delivered(batch_items(batch)));
            },
            Err(refused) => {
                proof {
                    let sent = choose|sent: int|
                        0 <= sent < batch.len() && outlet.calls() == calls_before + delivered(
                            earlier,
                        ) + cut_short(batch_items(batch), sent) && outlet.accepted() == before
                            + earlier + #[trigger] batch_items(batch.take(sent));
                    let reached = earlier.len() + sent;
                    assert(batch_items(batch.take(sent)) =~= batch_items(batch).take(sent));
                    assert(emitted(all).take(reached) =~= earlier + batch_items(batch).take(sent));
                    assert(emitted(all)[reached] == batch_items(batch)[sent]);
                    assert(before + emitted(all).take(reached) =~= before + earlier + batch_items(
                        batch.take(sent),
                    ));
                    assert(calls_before + cut_short(emitted(all), reached) =~= calls_before
                        + delivered(earlier) + cut_short(batch_items(batch), sent));
                }
                return Err(refused);
            },
        }
    }
    assert(all.take(batches@.len() as int) =~= all);
    Ok(())
}

} // verus!
