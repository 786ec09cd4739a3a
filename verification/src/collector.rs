//! The consumer side: a collector that joins the bytes of the items it is fed.
//!
//! The collector does not receive anything itself. Whoever owns the receiving
//! end of the channel waits for the next event and feeds it in: an item, or
//! the news that the channel is exhausted. The collector answers with its next
//! state. Its result comes out only in answer to the exhausted channel, so no
//! partial result can escape.
use vstd::prelude::*;
use crate::item::{Compressed, ItemView, RelayError};

verus! {

/// Whether every item is binary-encoded.
pub open spec fn all_binaries(items: Seq<ItemView>) -> bool {
    forall|i: int| 0 <= i < items.len() ==> items[i] is Binaries
}

/// The bytes of all the items, joined in the order of the items.
pub open spec fn joined(items: Seq<ItemView>) -> Seq<u8> {
    items.flat_map(|item: ItemView| item.payload())
}

/// What a collector returns that starts empty, is fed `items` in this order
/// and then the end of the channel: the joined bytes, unless one of the
/// items is raw.
pub open spec fn collected(items: Seq<ItemView>) -> Result<Seq<u8>, RelayError> {
    if all_binaries(items) {
        Ok(joined(items))
    } else {
        Err(RelayError::UnsupportedVariant)
    }
}

/// The views of a vector of items.
pub open spec fn views(items: Seq<Compressed>) -> Seq<ItemView> {
    items.map_values(|item: Compressed| item@)
}

/// A collector that waits for its next event. Its view is the bytes it has
/// joined so far.
pub struct Collector {
    result: Vec<u8>,
}

/// The state of a collector after an event.
pub enum Collected {
    /// The collector took an item and waits for the next event.
    Waiting(Collector),
    /// The channel is exhausted: this is the result, and the collector is gone.
    Complete(Vec<u8>),
}

impl View for Collector {
    type V = Seq<u8>;

    closed spec fn view(&self) -> Seq<u8> {
        self.result@
    }
}

impl Collector {
    /// A collector that has joined nothing yet.
    pub fn new() -> (collector: Collector)
        ensures
            collector@ == Seq::<u8>::empty(),
    {
        Collector { result: Vec::new() }
    }

    /// Takes one item in: the bytes of a binary-encoded item are appended,
    /// a raw item ends the collection.
    fn absorb(self, item: Compressed) -> (res: Result<Collector, RelayError>)
        ensures
            match item@ {
                ItemView::Binaries(binaries) => res matches Ok(next) && next@ == self@ + binaries,
                ItemView::Bytes(_) => res matches Err(RelayError::UnsupportedVariant),
            },
    {
        let mut collector = self;
        match item.try_to_binaries() {
            Ok(mut binaries) => {
                collector.result.append(&mut binaries);
                Ok(collector)
            },
            Err(unsupported) => Err(unsupported),
        }
    }

    /// Gives up the bytes joined so far.
    fn finish(self) -> (result: Vec<u8>)
        ensures
            result@ == self@,
    {
        self.result
    }

    /// Feeds one event to the collector: `Some` item that arrived, or `None`
    /// when the channel is closed and empty.
    ///
    /// A binary-encoded item has its bytes appended, and the collector waits
    /// on. A raw item ends the collection with `UnsupportedVariant`. `None`
    /// completes it: the bytes joined so far are the result.
    pub fn accept(self, event: Option<Compressed>) -> (res: Result<Collected, RelayError>)
        ensures
            match event {
                Some(item) => match item@ {
                    ItemView::Binaries(binaries) => res matches Ok(Collected::Waiting(next))
                        && next@ == self@ + binaries,
                    ItemView::Bytes(_) => res matches Err(RelayError::UnsupportedVariant),
                },
                None => res matches Ok(Collected::Complete(result)) && result@ == self@,
            },
    {
        match event {
            Some(item) => match self.absorb(item) {
                Ok(next) => Ok(Collected::Waiting(next)),
                Err(unsupported) => Err(unsupported),
            },
            None => Ok(Collected::Complete(self.finish())),
        }
    }
}

/// Joining the bytes of some items and then those of one more gives the
/// bytes of all of them.
pub proof fn lemma_joined_push(items: Seq<ItemView>, last: ItemView)
    ensures
        joined(items.push(last)) == joined(items) + last.payload(),
{
    items.lemma_flat_map_push(|item: ItemView| item.payload(), last);
}

/// The bytes of earlier items come before the bytes of later ones: joining
/// two runs of items gives the bytes of the first run, then those of the
/// second.
pub proof fn lemma_joined_concat(first: Seq<ItemView>, then: Seq<ItemView>)
    ensures
        joined(first + then) == joined(first) + joined(then),
{
    let bytes_of = |item: ItemView| item.payload();
    assert((first + then).map_values(bytes_of) =~= first.map_values(bytes_of) + then.map_values(
        bytes_of,
    ));
    vstd::seq_lib::lemma_flatten_concat(first.map_values(bytes_of), then.map_values(bytes_of));
}

/// A collection over two runs of items is the collection over the first run
/// carried on over the second: it fails if either run holds a raw item, and
/// otherwise gives the bytes of the first run followed by those of the
/// second.
pub proof fn lemma_collected_concat(first: Seq<ItemView>, then: Seq<ItemView>)
    ensures
        collected(first + then) == (match (collected(first), collected(then)) {
            (Ok(head), Ok(tail)) => Ok(head + tail),
            _ => Err(RelayError::UnsupportedVariant),
        }),
{
    lemma_joined_concat(first, then);
    let both = first + then;
    if all_binaries(first) && all_binaries(then) {
        assert forall|i: int| 0 <= i < both.len() implies both[i] is Binaries by {
            if i < first.len() {
                assert(both[i] == first[i]);
            } else {
                assert(both[i] == then[i - first.len()]);
            }
        }
    } else if !all_binaries(first) {
        let i = choose|i: int| 0 <= i < first.len() && !(first[i] is Binaries);
        assert(both[i] == first[i]);
    } else {
        let i = choose|i: int| 0 <= i < then.len() && !(then[i] is Binaries);
        assert(both[first.len() + i] == then[i]);
    }
}

/// One raw item, wherever it stands, fails the whole collection: no bytes
/// come out, neither those of the other items nor any in its place.
pub proof fn lemma_raw_item_fails(items: Seq<ItemView>, at: int)
    requires
        0 <= at < items.len(),
        items[at] is Bytes,
    ensures
        collected(items) == Err::<Seq<u8>, RelayError>(RelayError::UnsupportedVariant),
{
}

/// Runs a collector over items that have all arrived: feeds them in order,
/// then the end of the channel.
///
/// The result is the joined bytes of the items, or `UnsupportedVariant` if
/// one of them is raw.
pub fn collect(items: Vec<Compressed>) -> (res: Result<Vec<u8>, RelayError>)
    ensures
        match collected(views(items@)) {
            Ok(bytes) => res matches Ok(result) && result@ == bytes,
            Err(failure) => res matches Err(given) && given == failure,
        },
{
    let ghost arrived = views(items@);
    let mut collector = Collector::new();
    assert(joined(arrived.take(0)) == Seq::<u8>::empty()) by {
        assert(arrived.take(0).map_values(|item: ItemView| item.payload()) =~= Seq::<Seq<u8>>::empty());
    }
    for item in feed: items
        invariant
            arrived == views(items@),
            feed.seq() == items@,
            all_binaries(arrived.take(feed.index() as int)),
            collector@ == joined(arrived.take(feed.index() as int)),
    {
        let ghost fed = feed.index() as int;
        proof {
            lemma_joined_push(arrived.take(fed), arrived[fed]);
            assert(arrived.take(fed + 1) =~= arrived.take(fed).push(arrived[fed]));
        }
        match collector.absorb(item) {
            Ok(next) => {
                collector = next;
            },
            Err(unsupported) => {
                return Err(unsupported);
            },
        }
    }
    assert(arrived.take(items@.len() as int) =~= arrived);
    Ok(collector.finish())
}

} // verus!
