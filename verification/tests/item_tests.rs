use stage_relay::item::{Compressed, RelayError};

#[test]
fn binaries_give_their_bytes() {
    let item = Compressed::Binaries(vec![4, 5, 6]);
    assert_eq!(item.to_binaries(), vec![4, 5, 6]);
}

#[test]
fn empty_binaries_give_no_bytes() {
    let item = Compressed::Binaries(vec![]);
    assert_eq!(item.to_binaries(), Vec::<u8>::new());
}

#[test]
fn to_binaries_leaves_the_item_alone() {
    let item = Compressed::Binaries(vec![9]);
    let first = item.to_binaries();
    let second = item.to_binaries();
    assert_eq!(first, second);
    assert_eq!(item, Compressed::Binaries(vec![9]));
}

#[test]
fn try_to_binaries_accepts_binaries() {
    let item = Compressed::Binaries(vec![1, 2]);
    assert_eq!(item.try_to_binaries(), Ok(vec![1, 2]));
}

#[test]
fn try_to_binaries_refuses_raw_bytes() {
    let item = Compressed::Bytes(vec![1, 2]);
    assert_eq!(item.try_to_binaries(), Err(RelayError::UnsupportedVariant));
}

#[test]
fn try_to_binaries_refuses_empty_raw_bytes() {
    let item = Compressed::Bytes(vec![]);
    assert_eq!(item.try_to_binaries(), Err(RelayError::UnsupportedVariant));
}

#[test]
fn clone_keeps_variant_and_bytes() {
    let raw = Compressed::Bytes(vec![7, 8]);
    let binary = Compressed::Binaries(vec![7, 8]);
    assert_eq!(raw.clone(), raw);
    assert_eq!(binary.clone(), binary);
    assert_ne!(raw.clone(), binary);
}

#[test]
fn the_two_errors_differ() {
    assert_ne!(RelayError::UnsupportedVariant, RelayError::ChannelClosed);
}
