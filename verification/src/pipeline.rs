//! What the stages and the collector compute together.
//!
//! The stages send the items of their batches in order, and the collector
//! joins the bytes of the items in the order in which they arrive. The channel
//! between them is first in, first out. So the collector is fed exactly what
//! the stages sent, and the laws below say what then comes out.
use vstd::prelude::*;
use crate::collector::{all_binaries, collected, joined, lemma_collected_concat, lemma_joined_push};
use crate::item::{ItemView, RelayError};
use crate::runner::{batch_items, emitted, encoding, item_of, lemma_emitted_concat, lemma_emitted_single};

verus! {

/// The encodings of the elements of one batch, joined in the order of the
/// batch.
pub open spec fn encoded(batch: Seq<u8>) -> Seq<u8> {
    batch.flat_map(|x: u8| encoding(x))
}

/// The encodings of all elements of all batches, batch by batch and, within
/// a batch, element by element.
pub open spec fn encoded_all(batches: Seq<Seq<u8>>) -> Seq<u8> {
    batches.flat_map(|batch: Seq<u8>| encoded(batch))
}

/// A collector that is fed the items of one batch returns the encodings of
/// the batch's elements, in order.
pub proof fn lemma_batch_collected(batch: Seq<u8>)
    ensures
        collected(batch_items(batch)) == Ok::<Seq<u8>, RelayError>(encoded(batch)),
    decreases batch.len(),
{
    if batch.len() == 0 {
        assert(batch_items(batch).map_values(|item: ItemView| item.payload()) =~= Seq::<
            Seq<u8>,
        >::empty());
        assert(batch.map_values(|x: u8| encoding(x)) =~= Seq::<Seq<u8>>::empty());
    } else {
        let front = batch.drop_last();
        let last = batch.last();
        lemma_batch_collected(front);
        assert(batch =~= front.push(last));
        assert(batch_items(batch) =~= batch_items(front).push(item_of(last)));
        lemma_joined_push(batch_items(front), item_of(last));
        front.lemma_flat_map_push(|x: u8| encoding(x), last);
    }
}

/// For all batches that stages run over in sequence, a collector that is fed
/// the items in the order in which they were sent returns the encodings of
/// all elements, batch by batch and, within a batch, element by element.
pub proof fn lemma_pipeline_result(batches: Seq<Seq<u8>>)
    ensures
        collected(emitted(batches)) == Ok::<Seq<u8>, RelayError>(encoded_all(batches)),
    decreases batches.len(),
{
    if batches.len() == 0 {
        assert(batches.map_values(|batch: Seq<u8>| batch_items(batch)) =~= Seq::<
            Seq<ItemView>,
        >::empty());
        assert(emitted(batches).map_values(|item: ItemView| item.payload()) =~= Seq::<
            Seq<u8>,
        >::empty());
        assert(batches.map_values(|batch: Seq<u8>| encoded(batch)) =~= Seq::<Seq<u8>>::empty());
    } else {
        let front = batches.drop_last();
        let last = batches.last();
        lemma_pipeline_result(front);
        lemma_batch_collected(last);
        assert(batches =~= front + seq![last]);
        lemma_emitted_concat(front, seq![last]);
        lemma_emitted_single(last);
        lemma_collected_concat(emitted(front), batch_items(last));
        assert(batches =~= front.push(last));
        front.lemma_flat_map_push(|batch: Seq<u8>| encoded(batch), last);
    }
}

/// Each element is encoded as itself, one byte: the encodings of a batch are
/// the batch.
pub proof fn lemma_encoded_is_batch(batch: Seq<u8>)
    ensures
        encoded(batch) == batch,
    decreases batch.len(),
{
    if batch.len() == 0 {
        assert(batch.map_values(|x: u8| encoding(x)) =~= Seq::<Seq<u8>>::empty());
    } else {
        let front = batch.drop_last();
        let last = batch.last();
        lemma_encoded_is_batch(front);
        assert(batch =~= front.push(last));
        front.lemma_flat_map_push(|x: u8| encoding(x), last);
    }
}

/// With one byte per element, the result of the whole pipeline is the
/// batches laid end to end.
pub proof fn lemma_pipeline_result_flat(batches: Seq<Seq<u8>>)
    ensures
        collected(emitted(batches)) == Ok::<Seq<u8>, RelayError>(batches.flatten()),
{
    lemma_pipeline_result(batches);
    assert(batches.map_values(|batch: Seq<u8>| encoded(batch)) =~= batches) by {
        assert forall|i: int| 0 <= i < batches.len() implies encoded(batches[i])
            == batches[i] by {
            lemma_encoded_is_batch(batches[i]);
        }
    }
}

/// For a single batch of a single element, the result is exactly the
/// encoding of that element: the one byte that is the element.
pub proof fn lemma_single_element(x: u8)
    ensures
        collected(emitted(seq![seq![x]])) == Ok::<Seq<u8>, RelayError>(encoding(x)),
        encoding(x) == seq![x],
{
    lemma_pipeline_result_flat(seq![seq![x]]);
    seq![seq![x]].lemma_flatten_one_element();
}

} // verus!
