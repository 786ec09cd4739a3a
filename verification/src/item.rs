//! Items: the tagged values that travel through the channel.
use vstd::prelude::*;

verus! {

/// Why a stage or the collector gave up.
#[derive(Debug, Clone, Copy, PartialEq, Eq, Structural)]
pub enum RelayError {
    /// Bytes were asked of an item that carries the raw variant.
    UnsupportedVariant,
    /// An item was sent after the receiving end of the channel was gone.
    ChannelClosed,
}

/// A value on its way from a stage to the collector.
///
/// Only `Binaries` can be turned into flat bytes. `Bytes` is carried but never
/// read: to ask for its bytes is a misuse.
#[derive(Debug, PartialEq, Eq)]
pub enum Compressed {
    /// A raw payload.
    Bytes(Vec<u8>),
    /// A binary-encoded payload.
    Binaries(Vec<u8>),
}

/// What an item is, as a mathematical value.
pub enum ItemView {
    Bytes(Seq<u8>),
    Binaries(Seq<u8>),
}

impl ItemView {
    /// The bytes the item carries, whatever its variant.
    pub open spec fn payload(self) -> Seq<u8> {
        match self {
            ItemView::Bytes(bytes) => bytes,
            ItemView::Binaries(binaries) => binaries,
        }
    }
}

impl ItemView {
    /// What asking the item for its bytes gives: the bytes of a
    /// binary-encoded item, and `UnsupportedVariant` for a raw one.
    pub open spec fn extracted(self) -> Result<Seq<u8>, RelayError> {
        match self {
            ItemView::Binaries(binaries) => Ok(binaries),
            ItemView::Bytes(_) => Err(RelayError::UnsupportedVariant),
        }
    }
}

/// A raw item never yields bytes, whatever it carries: asking it for them
/// fails with `UnsupportedVariant`. No empty and no substituted bytes come
/// out in their place.
pub proof fn lemma_raw_yields_no_bytes(item: ItemView)
    requires
        item is Bytes,
    ensures
        item.extracted() == Err::<Seq<u8>, RelayError>(RelayError::UnsupportedVariant),
        forall|bytes: Seq<u8>| item.extracted() != Ok::<Seq<u8>, RelayError>(bytes),
{
}

impl View for Compressed {
    type V = ItemView;

    open spec fn view(&self) -> ItemView {
        match *self {
            Compressed::Bytes(bytes) => ItemView::Bytes(bytes@),
            Compressed::Binaries(binaries) => ItemView::Binaries(binaries@),
        }
    }
}

impl Clone for Compressed {
    /// A copy with the same variant and the same bytes.
    fn clone(&self) -> (copy: Compressed)
        ensures
            copy@ == self@,
    {
        match self {
            Compressed::Bytes(bytes) => Compressed::Bytes(bytes.clone()),
            Compressed::Binaries(binaries) => Compressed::Binaries(binaries.clone()),
        }
    }
}

impl Compressed {
    /// The bytes of a binary-encoded item, as a fresh vector.
    ///
    /// The raw variant is not supported: a caller has to rule it out.
    /// [`Compressed::try_to_binaries`] does so at run time.
    pub fn to_binaries(&self) -> (out: Vec<u8>)
        requires
            self@ is Binaries,
        ensures
            self@ == ItemView::Binaries(out@),
    {
        match self {
            Compressed::Binaries(binaries) => binaries.clone(),
            Compressed::Bytes(_) => vstd::pervasive::unreached(),
        }
    }

    /// The bytes of a binary-encoded item, or `UnsupportedVariant` for a raw
    /// one. A raw item never yields bytes, empty or otherwise.
    pub fn try_to_binaries(&self) -> (res: Result<Vec<u8>, RelayError>)
        ensures
            match self@.extracted() {
                Ok(binaries) => res matches Ok(out) && out@ == binaries,
                Err(unsupported) => res == Err::<Vec<u8>, RelayError>(unsupported),
            },
    {
        match self {
            Compressed::Binaries(_) => Ok(self.to_binaries()),
            Compressed::Bytes(_) => Err(RelayError::UnsupportedVariant),
        }
    }
}

} // verus!
